//! Configuration documents.

use aetherlink::client::config::{parse_port, required_str, ClientConfig};
use aetherlink::client::routing::{Action, Matcher};
use aetherlink::engine::config::{parse_bytes, parse_document, yaml_outcome, Document};

#[test]
fn parses_json_document() {
    // Given: JSON spelling
    let v = parse_document(r#"{"a":1}"#).expect("json");
    // Then: value out.
    assert_eq!(v.get("a").and_then(Document::as_u64), Some(1));
}

#[test]
fn parses_yaml_document() {
    // Given: YAML spelling (shipped examples)
    let v = parse_document("a: 1\nb:\n  - x\n").expect("yaml");
    assert_eq!(v.get("a").and_then(Document::as_u64), Some(1));
    let b = v.get("b").and_then(Document::as_array).expect("list");
    assert_eq!(b[0].as_str(), Some("x"));
}

#[test]
fn rejects_garbage_in_both_spellings() {
    // Given: unclosed flow sequence (broken JSON *and* YAML)
    // When/Then: named error, never a panic or default.
    assert!(parse_document("[unclosed").is_err());
}

#[test]
fn every_kind_of_value_is_read() {
    let v = parse_document(r#"{"n":null,"b":true,"i":-3,"f":1.5,"t":"x","l":[1]}"#).expect("json");
    assert!(matches!(v.get("n"), Some(Document::Null)));
    assert_eq!(v.get("b").and_then(Document::as_bool), Some(true));
    assert!(matches!(v.get("i"), Some(Document::OtherNumber)));
    assert!(matches!(v.get("f"), Some(Document::OtherNumber)));
    assert_eq!(v.get("t").and_then(Document::as_str), Some("x"));
    assert!(v.get("missing").is_none());
    assert!(v.as_str().is_none());
}

#[test]
fn yaml_failure_is_told() {
    let e = yaml_outcome(Err("line 1".to_string())).err().expect("failure");
    assert!(e.message().contains("line 1"));
    assert!(yaml_outcome(Ok(Document::Null)).is_ok());
}

fn config(text: &str) -> Result<ClientConfig, String> {
    ClientConfig::parse(&parse_document(text).expect("document")).map_err(|e| e.message())
}

#[test]
fn defaults_fill_in() {
    let c = config(r#"{"server_addr":"example.com:443","psk":"x"}"#).expect("config");
    assert_eq!(c.dns_mode, "tunnel");
    assert_eq!(c.pad_multiple, 128);
    assert_eq!(c.mtu, 1400);
    assert!(c.include_private_lan_direct);
    assert_eq!(c.rules.rules().len(), 3);
}

#[test]
fn missing_and_bad_values_are_told() {
    assert!(config(r#"{"server_addr":"example.com:443"}"#).is_err());
    assert!(config(r#"{"psk":"x"}"#).is_err());
    assert!(config(r#"{"server_addr":"example.com:443","psk":""}"#).is_err());
    assert!(config(r#"{"server_addr":"example.com","psk":"x"}"#).is_err());
    assert!(config(r#"{"server_addr":"example.com:0","psk":"x"}"#).is_err());
    assert!(config(r#"{"server_addr":"example.com:443","psk":"x","dns_mode":"system"}"#).is_err());
}

#[test]
fn port_is_behind_the_last_colon() {
    let (host, port) = parse_port("example.com:443").expect("address");
    assert_eq!((host.as_str(), port), ("example.com", 443));
    assert!(parse_port(":443").is_err());
    assert!(parse_port("example.com:70000").is_err());
    assert!(parse_port("example.com:").is_err());
}

#[test]
fn required_text() {
    let doc = parse_document(r#"{"a":"x","b":1}"#).expect("json");
    assert_eq!(required_str(&doc, "a").expect("a"), "x");
    assert!(required_str(&doc, "b").is_err());
    assert!(required_str(&doc, "c").is_err());
}

#[test]
fn nested_documents_and_rules_are_read() {
    let c = config(
        "client:\n  server_addr: \"server.example.com:443\"\n  psk: \"secret\"\n  routing:\n    rules:\n      - name: lan\n        action: direct\n        priority: 10\n        when:\n          cidr: 198.51.100.0/24\n      - name: site\n        action: tunnel\n        priority: 20\n        when:\n          suffix: .example.com\n",
    )
    .expect("config");
    assert!(c.server_addr.contains("server.example.com"));
    let rules = c.rules.rules();
    assert_eq!(rules.len(), 5);
    assert_eq!(rules[3].name, "lan");
    assert_eq!(rules[4].action, Action::Tunnel);
    assert!(matches!(&rules[4].matcher, Matcher::Suffix(s) if s.as_str() == ".example.com"));
    assert_eq!(c.rules.match_action("198.51.100.77"), Action::Direct);
}

#[test]
fn file_contents_are_read() {
    let doc = parse_bytes(b"server_addr: example.com:443\n".to_vec()).expect("yaml");
    assert_eq!(doc.get("server_addr").and_then(Document::as_str), Some("example.com:443"));
    let e = parse_bytes(vec![0xff, 0xfe]).err().expect("no text");
    assert!(e.message().contains("config not UTF-8: invalid utf-8 sequence"));
}

#[test]
fn dns_mode_is_tunnel_or_nothing() {
    let read = |mode: &str| {
        let text = format!(r#"{{"server_addr":"example.com:443","psk":"x"{mode}}}"#);
        ClientConfig::parse(&parse_document(&text).expect("json"))
    };
    assert!(read("").is_ok());
    assert!(read(r#","dns_mode":"tunnel""#).is_ok());
    for mode in [r#","dns_mode":"direct""#, r#","dns_mode":5"#, r#","dns_mode":null"#] {
        let e = read(mode).err().expect("refused");
        assert_eq!(
            e.message(),
            "Config error: dns_mode must be tunnel (v1.5 only supports tunnel)"
        );
    }
}

#[test]
fn private_addresses_take_the_tunnel_when_the_configuration_says_so() {
    let text = r#"{"server_addr":"example.com:443","psk":"x",
        "full_tunnel":{"include_private_lan_direct":false},
        "routing":{"rules":[{"name":"nas","action":"direct","when":{"ip":"10.0.0.5"}}]}}"#;
    let c = ClientConfig::parse(&parse_document(text).expect("json")).expect("config");
    assert_eq!(c.rules.match_action("10.0.0.9"), Action::Tunnel);
    assert_eq!(c.rules.match_action("10.0.0.5"), Action::Direct);
    assert_eq!(c.rules.deciding_rules().len(), 1);
    assert_eq!(c.rules.rules().len(), 4);
}
