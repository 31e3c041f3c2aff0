//! Handles, codes and staging behind the C interface.

use aetherlink::client::platform::FakePlatform;
use aetherlink::client::{Client, ClientError};
use aetherlink::ffi::calls::{
    client_down, client_rules_list, client_rules_reload, client_rules_set,
    client_status, client_up,
};
use aetherlink::ffi::staging::{Staging, TunAttachment};
use aetherlink::ffi::{
    client_outcome, create_client, create_client_of_json, reply_fits, server_stop_outcome,
    AetherError, HandleMap, LastError, Refusal, VERSION,
};

type Handles = HandleMap<Client<FakePlatform, u32>, String>;

fn platform() -> FakePlatform {
    FakePlatform::working("aether-ffi-state.json".to_string())
}

fn create(handles: &mut Handles, text: &str) -> usize {
    match create_client(text, platform()) {
        Ok(client) => handles.insert_client(client),
        Err(_) => 0,
    }
}

fn make_client(handles: &mut Handles) -> usize {
    let h = create(handles, r#"{"server_addr":"example.com:443","psk":"x"}"#);
    assert_ne!(h, 0, "client create");
    h
}

#[test]
fn ffi_version_banner() {
    // Then: identifies the product line
    assert!(VERSION.starts_with("AetherLink"), "got {VERSION}");
}

#[test]
fn ffi_client_create_and_invalid_handle() {
    let mut handles = Handles::new();
    // Given: valid client config document (psk is required, never defaulted)
    let h = create(&mut handles, r#"{"server_addr":"example.com:443","psk":"x"}"#);
    assert_ne!(h, 0, "create must yield a handle");
    // Then: unknown handles are rejected, not crashed on
    assert_eq!(client_up(&mut handles, usize::MAX).code, AetherError::InvalidHandle);
    assert_eq!(client_down(&mut handles, usize::MAX).code, AetherError::InvalidHandle);
    // A config without psk is invalid: no empty-secret default, no handle.
    assert_eq!(create(&mut handles, r#"{"server_addr":"example.com:443"}"#), 0);
    assert!(handles.client_exists(h));
    assert!(handles.get_client(h).is_some());
}

#[test]
fn ffi_accepts_yaml_configs() {
    let mut handles = Handles::new();
    // Given: a client document in YAML → Then: accepted.
    let ch = create(&mut handles, "client:\n  server_addr: \"server.example.com:443\"\n  psk: \"x\"\n");
    assert_ne!(ch, 0, "client must accept yaml config");
}

#[test]
fn rules_set_list_reload_roundtrip() {
    // Given: fresh client with default (LAN-only) rules
    let mut handles = Handles::new();
    let h = make_client(&mut handles);
    // When: setting two custom rules
    let docs = r#"{"rules":[
            {"name":"one","action":"direct","priority":40,"when":{"ip":"198.51.100.10"}},
            {"name":"site","action":"direct","priority":50,"when":{"suffix":".example.com"}}
        ]}"#;
    assert_eq!(client_rules_set(&mut handles, h, docs).code, AetherError::Success);
    // Then: list returns both, reload revalidates cleanly.
    let listed = client_rules_list(&handles, h, 4096).ok().expect("rules");
    assert!(listed.contains("\"one\""), "got: {listed}");
    assert!(listed.contains("\"site\""), "got: {listed}");
    assert_eq!(client_rules_reload(&handles, h).code, AetherError::Success);
    assert_eq!(
        listed,
        concat_rules(&[
            r#"{"name":"one","action":"Direct","matcher":{"Ip":"198.51.100.10"},"priority":40}"#,
            r#"{"name":"site","action":"Direct","matcher":{"Suffix":".example.com"},"priority":50}"#,
        ])
    );
}

fn concat_rules(rules: &[&str]) -> String {
    format!("[{}]", rules.join(","))
}

#[test]
fn rules_reject_bad_input() {
    // Given: fresh client
    let mut handles = Handles::new();
    let h = make_client(&mut handles);
    // When: garbage / unknown handle
    // Then: InvalidArgument / InvalidHandle, never a crash.
    let o = client_rules_set(&mut handles, h, "[unclosed");
    assert_eq!(o.code, AetherError::InvalidArgument);
    assert!(o.error.expect("note").starts_with("Invalid rules JSON: "));
    assert_eq!(
        client_rules_set(&mut handles, usize::MAX, r#"{"rules":[]}"#).code,
        AetherError::InvalidHandle
    );
    let o = client_rules_list(&handles, usize::MAX, 16).err().expect("no client");
    assert_eq!(o.code, AetherError::InvalidHandle);
    let o = client_rules_set(&mut handles, h, r#"{"rules":[{"name":"x"}]}"#);
    assert_eq!(o.code, AetherError::InvalidArgument);
    assert_eq!(o.error, Some("Rules set failed: Routing error: rule missing action".to_string()));
}

#[test]
fn status_needs_room() {
    let mut handles = Handles::new();
    let h = make_client(&mut handles);
    let status = client_status(&handles, h, 4096).ok().expect("status");
    assert_eq!(status, r#"{"dns_mode":"tunnel","server":"example.com:443","up":false}"#);
    let secret = r#"{"server_addr":"example.com:443","psk":"super-secret-psk-123"}"#;
    let other = create(&mut handles, secret);
    assert_eq!(client_status(&handles, other, 4096).ok().expect("status"), status);
    assert!(client_status(&handles, h, status.len() + 1).is_ok());
    let o = client_status(&handles, h, status.len()).err().expect("too small");
    assert_eq!(o.error, Some("Output buffer too small".to_string()));
    let o = client_status(&handles, h, 0).err().expect("no room");
    assert_eq!((o.code, o.error), (AetherError::InvalidArgument, None));
}

#[test]
fn client_goes_up_and_down_by_handle() {
    let mut handles = Handles::new();
    let h = make_client(&mut handles);
    let other = make_client(&mut handles);
    assert_eq!(client_up(&mut handles, h).code, AetherError::Success);
    assert!(handles.get_client(h).expect("client").is_up());
    assert!(!handles.get_client(other).expect("client").is_up());
    assert_eq!(client_down(&mut handles, h).code, AetherError::Success);
    assert!(!handles.get_client(h).expect("client").is_up());
}

#[test]
fn refusals_tell_reading_from_fitness() {
    let unread = create_client::<FakePlatform, u32>("[unclosed", platform()).err().expect("text");
    assert!(matches!(unread, Refusal::Unread(why) if why.contains("neither JSON nor YAML")));
    let unfit = create_client::<FakePlatform, u32>("{}", platform()).err().expect("config");
    assert!(matches!(unfit, Refusal::Unfit(why) if why.starts_with("Client creation failed: ")));
    let json = r#"{"server_addr":"example.com:443","psk":"x"}"#;
    assert!(create_client_of_json::<FakePlatform, u32>(json, platform()).is_some());
    assert!(create_client_of_json::<FakePlatform, u32>("server_addr: a:1\npsk: x", platform()).is_none());
    assert!(create_client_of_json::<FakePlatform, u32>("{}", platform()).is_none());
}

#[test]
fn android_tun_fd_validation() {
    // Given: live handle
    let mut handles = Handles::new();
    let h = make_client(&mut handles);
    let mut staging = Staging::new();
    // When: bad handle / bad fd / good triple
    assert_eq!(
        staging.set_tun_fd(handles.client_exists(usize::MAX), usize::MAX, 5, 1400).code,
        AetherError::InvalidHandle
    );
    assert_eq!(
        staging.set_tun_fd(handles.client_exists(h), h, -1, 1400).code,
        AetherError::InvalidArgument
    );
    assert_eq!(
        staging.set_tun_fd(handles.client_exists(h), h, 5, 1400).code,
        AetherError::Success
    );
    assert_eq!(staging.set_tun_fd(true, h, 5, 0).code, AetherError::InvalidArgument);
}

#[test]
fn split_config_validation() {
    // Given: live handle
    let mut handles = Handles::new();
    let h = make_client(&mut handles);
    let mut staging = Staging::new();
    let good = r#"{"mode":"all"}"#;
    let bad = "[unclosed";
    // When/Then: validated, staged, never crashing.
    assert_eq!(
        staging.set_split_config(handles.client_exists(usize::MAX), usize::MAX, good).code,
        AetherError::InvalidHandle
    );
    assert_eq!(
        staging.set_split_config(handles.client_exists(h), h, bad).code,
        AetherError::InvalidArgument
    );
    assert_eq!(
        staging.set_split_config(handles.client_exists(h), h, good).code,
        AetherError::Success
    );
    assert_eq!(staging.set_split_config(true, h, "[1]").code, AetherError::InvalidArgument);
    assert_eq!(staging.set_split_config(true, h, "{ \"a\" : 1 }").code, AetherError::Success);
    assert_eq!(staging.staged_split(h), Some("{\"a\":1}".to_string()));
    assert_eq!(staging.set_split_json(true, h, "[ 1 ]"), AetherError::Success);
    assert_eq!(staging.staged_split(h), Some("[ 1 ]".to_string()));
    assert_eq!(staging.set_split_json(true, h, "[1"), AetherError::InvalidArgument);
    assert_eq!(staging.set_split_json(false, h, "[1]"), AetherError::InvalidHandle);
}

#[test]
fn tun_staging_roundtrip() {
    let mut staging = Staging::new();
    staging.stage_tun(4242, 99, 1400);
    assert_eq!(staging.staged_tun(4242), Some(TunAttachment { fd: 99, mtu: 1400 }));
    assert_eq!(staging.staged_tun(9999), None);
}

#[test]
fn tun_staging_overwrites() {
    let mut staging = Staging::new();
    staging.stage_tun(4243, 10, 1400);
    staging.stage_tun(4243, 11, 1500);
    assert_eq!(staging.staged_tun(4243), Some(TunAttachment { fd: 11, mtu: 1500 }));
}

#[test]
fn split_staging_roundtrip() {
    let mut staging = Staging::new();
    staging.stage_split(4244, r#"{"mode":"all"}"#.to_string());
    assert_eq!(staging.staged_split(4244).as_deref(), Some(r#"{"mode":"all"}"#));
    assert_eq!(staging.staged_split(9998), None);
}

#[test]
fn handles_are_never_used_twice() {
    let mut handles = HandleMap::<u32, String>::new();
    let a = handles.insert_client(1);
    assert_eq!(handles.remove_client(a), Some(1));
    let b = handles.insert_server("s".to_string());
    assert_ne!(a, b);
    assert!(!handles.client_exists(b));
    assert_eq!(handles.remove_server(b), Some("s".to_string()));
    assert_eq!(handles.remove_server(b), None);
    assert_eq!(server_stop_outcome(true).code, AetherError::Success);
    assert_eq!(server_stop_outcome(false).code, AetherError::InvalidHandle);
}

#[test]
fn last_error_is_kept() {
    let mut last = LastError::new();
    assert_eq!(last.last_error(), None);
    last.set_last_error("Invalid client handle");
    assert_eq!(last.last_error(), Some("Invalid client handle"));
}

#[test]
fn failure_names_what_failed() {
    let e = ClientError::PlatformError("no device".to_string());
    let text = e.message();
    let o = client_outcome(Err(e), "Bring-up", AetherError::InternalError);
    assert_eq!(o.code, AetherError::InternalError);
    assert_eq!(o.error, Some(format!("Bring-up failed: {text}")));
}

#[test]
fn codes_differ() {
    let all = [
        AetherError::Success.code(),
        AetherError::InvalidHandle.code(),
        AetherError::InvalidArgument.code(),
        AetherError::InternalError.code(),
    ];
    for i in 0..all.len() {
        for j in 0..i {
            assert_ne!(all[i], all[j]);
        }
    }
}

#[test]
fn reply_needs_room_for_its_end() {
    assert!(reply_fits(3, 4));
    assert!(!reply_fits(4, 4));
}
