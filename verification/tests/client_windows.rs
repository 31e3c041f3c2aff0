//! Commands and their output on Windows.

use aetherlink::client::platform::windows::{
    decode_cmd_output, dns_add_args, dns_set_args, iface_admin_args, iface_metric_args, parse_ipconfig, parse_route_print,
    prefix_to_mask, route_add_args, route_add_if_args, route_delete_args, route_delete_if_args,
    tun_addr_args, TUN_IFACE_METRIC,
};
use aetherlink::client::platform::bringup::{Setup, SetupAction};
use aetherlink::client::platform::commands::{
    command_failure, default_commands, default_iface, direct_command, dns_step_args, pin_command,
    restore_commands, sum_up,
};
use aetherlink::client::platform::replay::{Replay, ReplayAction, ReplayEvent};
use aetherlink::client::platform::{default_state_path, tolerate_exists, IpAddr};
use aetherlink::client::ClientError;
use aetherlink::net::Ipv4Addr;
use aetherlink::netstack::tun::{AppliedChange, Route, Snapshot, UpState};

const ROUTE_PRINT: &str = "\
IPv4 Route Table\r\n\
===========================================================================\r\n\
Active Routes:\r\n\
Network Destination        Netmask          Gateway       Interface  Metric\r\n\
          0.0.0.0          0.0.0.0     192.168.31.1    192.168.31.95     25\r\n\
        127.0.0.0        255.0.0.0         On-link         127.0.0.1    331\r\n\
     192.168.31.0    255.255.255.0         On-link     192.168.31.95    281\r\n\
     192.168.56.0    255.255.255.0         On-link     192.168.56.1    281\r\n\
        224.0.0.0        240.0.0.0         On-link         127.0.0.1    331\r\n\
  255.255.255.255  255.255.255.255         On-link         127.0.0.1    331\r\n\
===========================================================================\r\n\
Persistent Routes:\r\n\
  None\r\n";

const IPCONFIG: &str = "\
Windows IP Configuration\r\n\
\r\n\
Ethernet adapter Ethernet0:\r\n\
\r\n\
   IPv4 Address. . . . . . . . . . . : 192.168.31.95(Preferred)\r\n\
   Subnet Mask . . . . . . . . . . . : 255.255.255.0\r\n\
   Default Gateway . . . . . . . . . : 192.168.31.1\r\n\
   DNS Servers . . . . . . . . . . . : 192.168.31.1\r\n\
                                       8.8.8.8\r\n";

#[test]
fn parse_route_table_finds_default() {
    // Given: real `route print -4` output
    let table = parse_route_print(ROUTE_PRINT).expect("parse");
    // When/Then: default + interface IP extracted, LAN rows kept.
    assert_eq!(
        table.default_gateway(),
        Some(Ipv4Addr::parse("192.168.31.1").expect("ip"))
    );
    assert_eq!(
        table.default_iface_ip(),
        Some(Ipv4Addr::parse("192.168.31.95").expect("ip"))
    );
    assert!(table
        .routes
        .iter()
        .any(|r| r.dest == "192.168.31.0/24" || r.dest == "192.168.31.0"));
}

#[test]
fn parse_ipconfig_finds_dns_and_iface() {
    // Given: real `ipconfig /all` fragment
    let config = parse_ipconfig(IPCONFIG);
    // Then: both DNS servers (primary + continuation line) found...
    assert_eq!(config.dns(), &vec!["192.168.31.1".to_string(), "8.8.8.8".to_string()]);
    // ...and adapter name maps to its IP.
    assert_eq!(
        config.ifaces().get("Ethernet0").map(String::as_str),
        Some("192.168.31.95")
    );
}

const IPCONFIG_RU: &str = "\
Windows IP Configuration\r\n\
\r\n\
Адаптер Ethernet Ethernet0:\r\n\
\r\n\
    IPv4-адрес. . . . . . . . . . . : 192.168.31.95(Preferred)\r\n\
    DNS-серверы . . . . . . . . . . : 192.168.31.1\r\n";

#[test]
fn parse_localized_ipconfig_by_technical_tokens() {
    // Given: non-English labels, same technical tokens (DNS/IPv4/dotless headers)
    let config = parse_ipconfig(IPCONFIG_RU);
    // Then: DNS + adapter mapping still extracted.
    assert_eq!(config.dns(), &vec!["192.168.31.1".to_string()]);
    // The type word ("Ethernet" after "Адаптер") is header chrome, not name.
    assert_eq!(
        config.ifaces().get("Ethernet0").map(String::as_str),
        Some("192.168.31.95")
    );
}

#[test]
fn parse_russian_unknown_adapter_header() {
    // Given: "Неизвестный адаптер <name>:" (wintun-style, no type word)
    let text = "Неизвестный адаптер singbox_tun:\r\n   IPv4-адрес. . . : 172.18.0.1\r\n";
    // Then: bare name extracted.
    let config = parse_ipconfig(text);
    assert_eq!(
        config.ifaces().get("singbox_tun").map(String::as_str),
        Some("172.18.0.1")
    );
}

#[test]
fn header_of_two_words_names_the_adapter_by_the_second() {
    let text = "Адаптер A B:\r\n   IPv4-адрес. . . : 10.0.0.1\r\n\r\n\
        Адаптер X:\r\n   IPv4-адрес. . . : 10.0.0.2\r\n";
    let config = parse_ipconfig(text);
    assert_eq!(config.ifaces().get("B").map(String::as_str), Some("10.0.0.1"));
    assert_eq!(config.ifaces().get("X").map(String::as_str), Some("10.0.0.2"));
}

#[test]
fn prefix_to_mask_table() {
    assert_eq!(prefix_to_mask(1).expect("1"), "128.0.0.0");
    assert_eq!(prefix_to_mask(8).expect("8"), "255.0.0.0");
    assert_eq!(prefix_to_mask(24).expect("24"), "255.255.255.0");
    assert_eq!(prefix_to_mask(32).expect("32"), "255.255.255.255");
    assert_eq!(prefix_to_mask(0).expect("0"), "0.0.0.0");
    assert!(prefix_to_mask(33).is_err());
}

#[test]
fn route_arg_builders() {
    assert_eq!(
        route_add_args("1.2.3.4/32", "192.168.31.1").expect("add"),
        vec![
            "add".to_string(),
            "1.2.3.4".to_string(),
            "mask".to_string(),
            "255.255.255.255".to_string(),
            "192.168.31.1".to_string()
        ],
    );
    assert_eq!(
        route_add_args("10.0.0.0/8", "192.168.31.1").expect("add"),
        vec![
            "add".to_string(),
            "10.0.0.0".to_string(),
            "mask".to_string(),
            "255.0.0.0".to_string(),
            "192.168.31.1".to_string()
        ],
    );
    assert_eq!(
        route_delete_args("1.2.3.4/32", "192.168.31.1").expect("del"),
        vec![
            "delete".to_string(),
            "1.2.3.4".to_string(),
            "mask".to_string(),
            "255.255.255.255".to_string(),
            "192.168.31.1".to_string()
        ],
    );
    assert!(route_add_args("999.1.1.1/32", "192.168.31.1").is_err());
}

#[test]
fn dns_arg_builders() {
    assert_eq!(
        dns_set_args("Ethernet0", "10.255.0.1"),
        vec![
            "interface".to_string(),
            "ip".to_string(),
            "set".to_string(),
            "dnsservers".to_string(),
            "Ethernet0".to_string(),
            "static".to_string(),
            "10.255.0.1".to_string(),
        ],
    );
}

#[test]
fn tun_addr_arg_builder() {
    // Given: wintun adapter name + TUN address
    // When/Then: netsh static-address args, no gateway (point-to-point TUN).
    assert_eq!(
        tun_addr_args("aether0", "10.255.0.2", 30).expect("args"),
        vec![
            "interface".to_string(),
            "ipv4".to_string(),
            "set".to_string(),
            "address".to_string(),
            "name=\"aether0\"".to_string(),
            "source=static".to_string(),
            "address=10.255.0.2".to_string(),
            "mask=255.255.255.252".to_string(),
        ],
    );
    assert!(tun_addr_args("aether0", "999.0.0.1", 30).is_err());
    assert!(tun_addr_args("", "10.255.0.2", 30).is_err());
}

#[test]
fn iface_admin_arg_builder() {
    // Given: newborn (disabled) wintun adapter
    // Then: enable/disable args in the crate's quoted-name pattern.
    assert_eq!(
        iface_admin_args("aether0", true).expect("args"),
        vec![
            "interface".to_string(),
            "set".to_string(),
            "interface".to_string(),
            "name=\"aether0\"".to_string(),
            "admin=enabled".to_string(),
        ],
    );
    assert_eq!(
        iface_admin_args("aether0", false).expect("args")[4],
        "admin=disabled".to_string(),
    );
    assert!(iface_admin_args("", true).is_err());
}

#[test]
fn tun_iface_metric_arg_builder() {
    // Given: newborn wintun adapter → Then: interface metric pinned low so
    // derived route metrics beat DHCP Ethernet.
    assert!(TUN_IFACE_METRIC < 25, "must beat observed physical 25");
    assert_eq!(
        iface_metric_args("aether0", TUN_IFACE_METRIC).expect("args"),
        vec![
            "interface".to_string(),
            "ipv4".to_string(),
            "set".to_string(),
            "interface".to_string(),
            "name=\"aether0\"".to_string(),
            format!("metric={}", TUN_IFACE_METRIC),
        ],
    );
    assert!(iface_metric_args("", 1).is_err());
}

#[test]
fn tun_routes_bind_egress_ifindex() {
    // Given: TUN gateway + adapter index → Then: add/delete mirror the
    // `if` binding (unbound rows get pinned to the physical NIC live).
    assert_eq!(
        route_add_if_args("0.0.0.0/1", "10.255.0.1", 7).expect("args"),
        vec![
            "add".to_string(),
            "0.0.0.0".to_string(),
            "mask".to_string(),
            "128.0.0.0".to_string(),
            "10.255.0.1".to_string(),
            "if".to_string(),
            "7".to_string(),
        ],
    );
    assert_eq!(
        route_delete_if_args("128.0.0.0/1", "10.255.0.1", 7).expect("args")[5..],
        vec!["if".to_string(), "7".to_string()],
    );
    assert!(route_add_if_args("999.0.0.0/1", "10.255.0.1", 7).is_err());
}

#[test]
fn decode_utf16le_bom_ipconfig() {
    // Given: ipconfig bytes as Windows really emits them (UTF-16LE + BOM)
    let text = "Unknown adapter singbox_tun:\r\n   IPv4 Address. . . : 172.18.0.1(Preferred)\r\n";
    let mut raw = vec![0xFF, 0xFE];
    for w in text.encode_utf16() {
        raw.extend_from_slice(&w.to_le_bytes());
    }
    // When: decoding -> Then: headers end with ':' again, IPv4 mapping parses.
    let decoded = decode_cmd_output(&raw);
    let config = parse_ipconfig(&decoded);
    assert_eq!(
        config.ifaces().get("singbox_tun").map(String::as_str),
        Some("172.18.0.1")
    );
    // And: plain UTF-8 passthrough still works.
    assert_eq!(
        decode_cmd_output(b"plain"),
        "plain"
    );
    // And: OEM IBM866 (direct-spawn ipconfig on RU Windows) decodes to text.
    let oem: Vec<u8> = vec![
        0x8D, 0xA5, 0xA8, 0xA7, 0xA2, 0xA5, 0xE1, 0xE2, 0xAD, 0xEB,
        0xA9, // Неизвестный
        0x20, // space
        0xA0, 0xA4, 0xA0, 0xAF, 0xE2, 0xA5, 0xE0, // адаптер
        0x20, // space
        b's', b'i', b'n', b'g', b'b', b'o', b'x', b'_', b't', b'u', b'n', b':',
    ];
    assert_eq!(
        decode_cmd_output(&oem),
        "Неизвестный адаптер singbox_tun:"
    );
}

fn words(args: &[String]) -> String {
    args.join(" ")
}

#[test]
fn pinned_server_route() {
    let gateway = Ipv4Addr::new(192, 168, 31, 1);
    let command = pin_command(&IpAddr::V4(Ipv4Addr::new(9, 9, 9, 9)), gateway).expect("pin");
    assert_eq!(words(&command.args), "add 9.9.9.9 mask 255.255.255.255 192.168.31.1");
    assert_eq!(command.route.dest, "9.9.9.9/32");
    assert_eq!(command.route.via, "192.168.31.1");
    assert!(pin_command(&IpAddr::V6("::1".to_string()), gateway).is_err());
}

#[test]
fn direct_route_takes_addresses_and_blocks_only() {
    let gateway = Ipv4Addr::new(192, 168, 31, 1);
    let one = direct_command("198.51.100.10", gateway).expect("address");
    assert_eq!(words(&one.args), "add 198.51.100.10 mask 255.255.255.255 192.168.31.1");
    let block = direct_command("10.0.0.0/8", gateway).expect("block");
    assert_eq!(words(&block.args), "add 10.0.0.0 mask 255.0.0.0 192.168.31.1");
    let e = direct_command("1.1.1.1-1.1.1.9", gateway).err().expect("range");
    assert!(e.message().contains("ip ranges unsupported, split it: 1.1.1.1-1.1.1.9"));
}

#[test]
fn default_route_is_two_halves() {
    let commands = default_commands(Some(7)).expect("halves");
    assert_eq!(commands.len(), 2);
    assert_eq!(words(&commands[0].args), "add 0.0.0.0 mask 128.0.0.0 10.255.0.1 if 7");
    assert_eq!(words(&commands[1].args), "add 128.0.0.0 mask 128.0.0.0 10.255.0.1 if 7");
    let e = default_commands(None).err().expect("no device");
    assert!(e.message().contains("no live TUN for default route"));
}

#[test]
fn interface_of_the_default_route() {
    let table = parse_route_print(ROUTE_PRINT).expect("table");
    assert_eq!(default_iface(&table, &parse_ipconfig(IPCONFIG)).expect("name"), "Ethernet0");
    let e = default_iface(&table, &parse_ipconfig("")).err().expect("unknown");
    assert!(e.message().contains("interface name not found"));
    if let Ok(empty) = parse_route_print("nothing here") {
        assert!(empty.default_gateway().is_none());
        assert!(default_iface(&empty, &parse_ipconfig(IPCONFIG)).is_err());
    }
}

#[test]
fn several_resolvers_are_set_and_added() {
    let servers = vec!["1.1.1.1".to_string(), "8.8.8.8".to_string()];
    assert_eq!(dns_step_args("Ethernet0", &servers, 0), dns_set_args("Ethernet0", "1.1.1.1"));
    assert_eq!(
        dns_step_args("Ethernet0", &servers, 1),
        dns_add_args("Ethernet0", "8.8.8.8", 2)
    );
    assert!(words(&dns_add_args("Ethernet0", "8.8.8.8", 2)).contains("2"));
}

#[test]
fn failures_are_told() {
    let e = command_failure("route", b"out", b"err");
    assert!(e.message().contains("route"));
    assert!(sum_up(&vec![]).is_ok());
    let e = sum_up(&vec!["one".to_string(), "two".to_string()]).err().expect("issues");
    assert!(e.message().contains("one; two"));
}

#[test]
fn added_routes_are_deleted_last_first() {
    let added = vec![
        Route { dest: "9.9.9.9/32".to_string(), via: "192.168.31.1".to_string() },
        Route { dest: "10.0.0.0/8".to_string(), via: "192.168.31.1".to_string() },
    ];
    let commands = restore_commands(&added);
    assert_eq!(words(&commands[0]), "delete 10.0.0.0 mask 255.0.0.0 192.168.31.1");
    assert_eq!(words(&commands[1]), "delete 9.9.9.9 mask 255.255.255.255 192.168.31.1");
}

#[test]
fn existing_object_is_no_failure() {
    let exists = ClientError::PlatformError("The object already exists.".to_string());
    assert!(tolerate_exists(Err(exists)).is_ok());
    let other = ClientError::PlatformError("access denied".to_string());
    assert!(tolerate_exists(Err(other)).is_err());
    assert!(tolerate_exists(Ok(())).is_ok());
    assert_ne!(default_state_path(true), default_state_path(false));
}

#[test]
fn adapter_set_up_runs_its_commands_in_order() {
    let mut setup = Setup::new("aether0", Ipv4Addr::new(10, 255, 0, 2)).expect("plan");
    let mut ran = Vec::new();
    loop {
        match setup.next() {
            SetupAction::Run(args) => {
                ran.push(words(&args));
                setup.command_ran(Ok(()));
            }
            SetupAction::Pause => setup.pause_over(),
            SetupAction::Finish => break,
        }
    }
    assert!(setup.outcome().is_ok());
    assert!(ran.iter().any(|c| c.contains("admin=enabled")));
    assert!(ran.iter().any(|c| c.contains("address=10.255.0.2")));
    assert!(ran.iter().any(|c| c.contains("metric=5")));
}

#[test]
fn adapter_set_up_gives_up() {
    let mut setup = Setup::new("aether0", Ipv4Addr::new(10, 255, 0, 2)).expect("plan");
    let mut runs = 0;
    loop {
        match setup.next() {
            SetupAction::Run(_) => {
                runs += 1;
                setup.command_ran(Err(ClientError::PlatformError("busy".to_string())));
            }
            SetupAction::Pause => setup.pause_over(),
            SetupAction::Finish => break,
        }
    }
    assert!(runs >= 10);
    assert!(setup.outcome().is_err());
}

/// Replays a state, answering each action, and gives the commands that ran.
fn replayed(state: &UpState, works: bool) -> (Vec<String>, bool) {
    let mut replay = Replay::new(state);
    let mut ran = Vec::new();
    loop {
        let event = match replay.next() {
            ReplayAction::Continue => ReplayEvent::Done,
            ReplayAction::FindIndex => ReplayEvent::Index(Some(7)),
            ReplayAction::FindInterface => ReplayEvent::Interface(Ok("Ethernet0".to_string())),
            ReplayAction::Run { program, args } => {
                ran.push(format!("{program} {}", words(&args)));
                if works {
                    ReplayEvent::Ran(Ok(()))
                } else {
                    ReplayEvent::Ran(Err(ClientError::PlatformError("no".to_string())))
                }
            }
            ReplayAction::DropTun => {
                ran.push("drop".to_string());
                ReplayEvent::Dropped(Ok(()))
            }
            ReplayAction::Finish => break,
        };
        replay.report(event);
    }
    (ran, replay.outcome().is_ok())
}

fn crashed() -> UpState {
    UpState {
        snapshot: Snapshot {
            routes: vec![Route {
                dest: "default".to_string(),
                via: "192.168.31.1".to_string(),
            }],
            dns_servers: vec!["192.168.31.1".to_string()],
        },
        applied: vec![
            AppliedChange::TunUp("aether0".to_string()),
            AppliedChange::PinnedRoute("9.9.9.9".to_string()),
            AppliedChange::DefaultViaTun,
        ],
        dns_iface: "Ethernet0".to_string(),
        tun_ifindex: Some(7),
    }
}

#[test]
fn replay_undoes_the_last_change_first() {
    let (ran, ok) = replayed(&crashed(), true);
    assert!(ok);
    let default = ran.iter().position(|c| c.contains("delete 0.0.0.0")).expect("default");
    let pin = ran.iter().position(|c| c.contains("delete 9.9.9.9")).expect("pin");
    let drop = ran.iter().position(|c| c == "drop").expect("drop");
    assert!(default < pin && pin < drop);
}

#[test]
fn replay_goes_on_after_failures() {
    let (all, _) = replayed(&crashed(), true);
    let (ran, ok) = replayed(&crashed(), false);
    assert!(!ok);
    assert_eq!(ran, all);
}
