//! Bringing the tunnel up and taking it down, on a platform in memory.

use aetherlink::client::cleanup;
use aetherlink::client::config::ClientConfig;
use aetherlink::client::lifecycle;
use aetherlink::client::platform::{FakePlatform, IpAddr, Platform, Step};
use aetherlink::client::{Client, ClientError};
use aetherlink::engine::config::parse_document;
use aetherlink::net::Ipv4Addr;
use aetherlink::netstack::tun::{AppliedChange, Snapshot, UpState};

fn config_of(text: &str) -> ClientConfig {
    ClientConfig::parse(&parse_document(text).expect("document")).expect("test config")
}

fn test_config() -> ClientConfig {
    config_of(
        r#"{
        "server_addr": "example.com:443",
        "psk": "test-psk-32-bytes-long-exactly!!",
        "dns_mode": "tunnel"
    }"#,
    )
}

fn temp_state(name: &str) -> String {
    format!("aether-{name}-state.json")
}

fn client(config: ClientConfig) -> Client<FakePlatform, u32> {
    Client::new_config(config, FakePlatform::no_privilege(temp_state("own")))
}

#[test]
fn up_without_privilege_fails_without_traces() {
    // Given: platform whose TUN open fails (no privileges)
    let path = temp_state("no-privs");
    let mut plat = FakePlatform::no_privilege(path);
    // When: bringing up
    // Then: clean Err, routing/DNS tables untouched, no state file left
    assert!(lifecycle::up(&mut plat, &test_config()).is_err());
    assert_eq!(
        plat.routes().get("default").map(String::as_str),
        Some("192.168.1.1")
    );
    assert_eq!(plat.dns(), &vec!["192.168.1.1".to_string()]);
    assert!(!plat.state_exists(), "failed up must leave no snapshot behind");
}

#[test]
fn down_after_failed_up_is_safe() {
    // Given: failed up (no privileges)
    let mut plat = FakePlatform::no_privilege(temp_state("down-safe"));
    assert!(lifecycle::up(&mut plat, &test_config()).is_err());
    // When: tearing down → Then: safe no-op Ok.
    lifecycle::down(&mut plat).expect("down after failed up");
    assert!(!plat.tun_exists());
}

#[test]
fn repeated_up_is_noop_when_up() {
    // Given: working platform, client already up
    let mut plat = FakePlatform::working(temp_state("repeat"));
    let mut client = client(test_config());
    client.up_on(&mut plat).expect("first up");
    let calls = plat.applied_count();
    // When: bringing up again → Then: Ok, no duplicate changes applied.
    client.up_on(&mut plat).expect("second up");
    assert_eq!(plat.applied_count(), calls);
    assert!(client.is_up());
}

#[test]
fn rollback_restores_on_midway_failure() {
    // Given: platform failing exactly at the default-route step
    let mut plat = FakePlatform::failing_at(Step::DefaultViaTun, temp_state("rollback"));
    // When: bringing up → Then: Err, tables back to pre-up, no state file.
    assert!(lifecycle::up(&mut plat, &test_config()).is_err());
    assert_eq!(
        plat.routes().get("default").map(String::as_str),
        Some("192.168.1.1")
    );
    assert_eq!(plat.dns(), &vec!["192.168.1.1".to_string()]);
    assert!(!plat.tun_exists());
    assert!(!plat.state_exists());
}

#[test]
fn server_ip_pinned_via_previous_gateway() {
    // Given: working platform, server name resolving to a fixed IP
    let mut plat = FakePlatform::working(temp_state("pin"));
    // When: up succeeds
    lifecycle::up(&mut plat, &test_config()).expect("up");
    // Then: pin route for the resolved server IP via the old gateway,
    // installed BEFORE the default switch (ordering proved by the log).
    let log = plat.call_log();
    let pin = log
        .iter()
        .position(|c| c.starts_with("apply:pin_route"))
        .expect("pin logged");
    let def = log
        .iter()
        .position(|c| c == "apply:default_via_tun")
        .expect("default logged");
    assert!(pin < def, "pin must precede default switch");
    assert!(plat.has_pinned("93.184.216.34"), "server IP pinned");
}

#[test]
fn dns_forced_to_virtual_resolver_on_up() {
    // Given: working platform
    let mut plat = FakePlatform::working(temp_state("dns"));
    // When: up succeeds → Then: system DNS is the virtual resolver only.
    lifecycle::up(&mut plat, &test_config()).expect("up");
    assert_eq!(plat.dns(), &vec!["10.255.0.1".to_string()]);
}

#[test]
fn successful_up_writes_snapshot_down_removes_it() {
    // Given: working platform
    let path = temp_state("snap");
    let mut plat = FakePlatform::working(path);
    // When: up → Then: state file holds pre-up snapshot + applied log.
    lifecycle::up(&mut plat, &test_config()).expect("up");
    assert!(plat.state_exists());
    let state = plat.load_state().expect("load state");
    assert_eq!(state.snapshot.dns_servers, vec!["192.168.1.1".to_string()]);
    assert!(
        !state.applied.is_empty(),
        "applied log must record mutations"
    );
    // When: down → Then: snapshot consumed, device gone.
    lifecycle::down(&mut plat).expect("down");
    assert!(!plat.tun_exists());
    assert!(!plat.state_exists());
}

fn left_over(applied: Vec<AppliedChange>) -> UpState {
    UpState {
        snapshot: Snapshot {
            routes: vec![],
            dns_servers: vec!["192.168.1.1".to_string()],
        },
        applied,
        dns_iface: String::new(),
        tun_ifindex: None,
    }
}

/// A platform on which a state is kept that cannot be read.
struct Unreadable {
    inner: FakePlatform,
    kept: bool,
}

fn unreadable(name: &str) -> Unreadable {
    Unreadable { inner: FakePlatform::working(temp_state(name)), kept: true }
}

impl Platform for Unreadable {
    fn resolve_host(&mut self, host: &str) -> Result<Vec<IpAddr>, ClientError> {
        self.inner.resolve_host(host)
    }

    fn snapshot(&mut self) -> Result<Snapshot, ClientError> {
        self.inner.snapshot()
    }

    fn tun_up(&mut self, name: &str, addr: Ipv4Addr, mtu: u32) -> Result<(), ClientError> {
        self.inner.tun_up(name, addr, mtu)
    }

    fn tun_down(&mut self) -> Result<(), ClientError> {
        self.inner.tun_down()
    }

    fn pin_route(&mut self, dest: &IpAddr, via: Ipv4Addr) -> Result<(), ClientError> {
        self.inner.pin_route(dest, via)
    }

    fn add_route(&mut self, dest: &str, via: Ipv4Addr) -> Result<(), ClientError> {
        self.inner.add_route(dest, via)
    }

    fn default_via_tun(&mut self) -> Result<(), ClientError> {
        self.inner.default_via_tun()
    }

    fn force_dns(&mut self, dns_ip: Ipv4Addr) -> Result<(), ClientError> {
        self.inner.force_dns(dns_ip)
    }

    fn restore(&mut self, snap: &Snapshot) -> Result<(), ClientError> {
        self.inner.restore(snap)
    }

    fn restore_applied(&mut self, state: &UpState) -> Result<(), ClientError> {
        self.inner.restore_applied(state)
    }

    fn captured_iface(&mut self) -> Option<String> {
        self.inner.captured_iface()
    }

    fn tun_ifindex(&mut self) -> Option<u32> {
        self.inner.tun_ifindex()
    }

    fn state_path(&self) -> String {
        self.inner.state_path()
    }

    fn state_exists(&mut self) -> bool {
        self.kept
    }

    fn save_state(&mut self, state: &UpState) -> Result<(), ClientError> {
        self.inner.save_state(state)
    }

    fn load_state(&mut self) -> Result<UpState, ClientError> {
        Err(ClientError::PlatformError("state is not readable".to_string()))
    }

    fn remove_state(&mut self) -> Result<(), ClientError> {
        self.kept = false;
        Ok(())
    }
}

#[test]
fn cleanup_consumes_state_file_idempotently() {
    // Given: a leftover that is no whole state (simulated crash mid-up)
    let mut plat = unreadable("crash");
    // When: force cleanup twice → Then: both Ok, state consumed.
    cleanup::force_cleanup(&mut plat).expect("first cleanup");
    assert!(!plat.state_exists());
    assert!(plat.inner.call_log().is_empty(), "nothing to undo");
    cleanup::force_cleanup(&mut plat).expect("second cleanup");
}

#[test]
fn cleanup_undoes_a_state_that_can_be_read() {
    let mut plat = FakePlatform::working(temp_state("crash-read")).with_state(left_over(vec![
        AppliedChange::TunUp("aether0".to_string()),
    ]));
    assert!(plat.state_exists());
    cleanup::force_cleanup(&mut plat).expect("first cleanup");
    assert!(!plat.state_exists());
    assert_eq!(plat.call_log(), ["restore".to_string()]);
    cleanup::force_cleanup(&mut plat).expect("second cleanup");
    assert_eq!(plat.call_log().len(), 1);
}

#[test]
fn down_leaves_a_state_that_cannot_be_read() {
    let mut plat = unreadable("down-unread");
    lifecycle::down(&mut plat).expect("down");
    assert!(plat.state_exists());
    assert_eq!(plat.inner.call_log(), ["apply:tun_down".to_string()]);
}

#[test]
fn cleanup_replays_empty_applied_log() {
    // Given: crash state with no applied mutations
    let mut plat =
        FakePlatform::working(temp_state("crash-empty")).with_state(left_over(vec![]));
    // When: force cleanup → Then: Ok, state consumed.
    cleanup::force_cleanup(&mut plat).expect("cleanup");
    assert!(!plat.state_exists());
}

#[test]
fn resolve_happens_before_any_mutation() {
    // Given: platform failing DNS resolution itself
    let mut plat = FakePlatform::failing_at(Step::Resolve, temp_state("resolve"));
    // When: up → Then: Err before a single mutation was attempted.
    assert!(lifecycle::up(&mut plat, &test_config()).is_err());
    assert!(plat.call_log().iter().all(|c| !c.starts_with("apply:")));
}

#[test]
fn custom_ip_rule_installed_direct() {
    // Given: config with an ip direct-rule
    let mut plat = FakePlatform::working(temp_state("rules"));
    let cfg = config_of(
        r#"{
        "server_addr": "example.com:443",
        "psk": "test-psk-32-bytes-long-exactly!!",
        "dns_mode": "tunnel",
        "routing": { "rules": [
            {"name": "one", "action": "direct", "priority": 40,
             "when": {"ip": "198.51.100.10"}}
        ]}
    }"#,
    );
    // When: up → Then: direct route via the old gateway.
    lifecycle::up(&mut plat, &cfg).expect("up");
    assert_eq!(
        plat.routes().get("198.51.100.10").map(String::as_str),
        Some("192.168.1.1")
    );
}

#[test]
fn up_refuses_when_state_file_exists() {
    // Given: leftover state from a previous (maybe crashed) up, not even readable
    let mut plat = unreadable("double-up");
    // When: up → Then: Err before any mutation, state left for cleanup.
    assert!(lifecycle::up(&mut plat, &test_config()).is_err());
    assert_eq!(plat.inner.applied_count(), 0);
    assert!(plat.state_exists(), "guard must not consume foreign state");
    // A readable one is refused the same way.
    let mut plat =
        FakePlatform::working(temp_state("double-up-read")).with_state(left_over(vec![]));
    assert!(lifecycle::up(&mut plat, &test_config()).is_err());
    assert_eq!(plat.applied_count(), 0);
    assert!(plat.state_exists());
}

#[test]
fn up_refuses_stale_tunnel_dns() {
    // Given: snapshot DNS already pointing at the virtual resolver
    // (previous teardown never finished)
    let path = temp_state("stale-dns");
    let mut plat = FakePlatform::working(path).with_dns(vec!["10.255.0.1".to_string()]);
    // When: up → Then: Err before any mutation.
    assert!(lifecycle::up(&mut plat, &test_config()).is_err());
    assert_eq!(plat.applied_count(), 0);
}

#[test]
fn client_status_reflects_lifecycle() {
    // Given: fresh client
    let mut client = client(test_config());
    let v: serde_json::Value =
        serde_json::from_str(&client.status().expect("status")).expect("json");
    assert_eq!(v["up"], false);
    // When: up on a working platform → Then: status flips.
    let mut plat = FakePlatform::working(temp_state("status"));
    client.up_on(&mut plat).expect("up");
    let v: serde_json::Value =
        serde_json::from_str(&client.status().expect("status")).expect("json");
    assert_eq!(v["up"], true);
    assert_eq!(v["dns_mode"], "tunnel");
}

#[test]
fn every_failing_step_leaves_the_network_as_it_was() {
    for step in [
        Step::TunUp,
        Step::PinRoute,
        Step::DefaultViaTun,
        Step::DnsForce,
    ] {
        let mut plat = FakePlatform::failing_at(step, temp_state("each"));
        assert!(lifecycle::up(&mut plat, &test_config()).is_err());
        assert_eq!(plat.routes().get("default").map(String::as_str), Some("192.168.1.1"));
        assert_eq!(plat.dns(), &vec!["192.168.1.1".to_string()]);
        assert!(!plat.tun_exists());
        assert!(!plat.state_exists());
    }
}

#[test]
fn down_brings_routes_and_resolvers_back() {
    let mut plat = FakePlatform::working(temp_state("back"));
    lifecycle::up(&mut plat, &test_config()).expect("up");
    assert_ne!(plat.routes().get("default").map(String::as_str), Some("192.168.1.1"));
    lifecycle::down(&mut plat).expect("down");
    assert_eq!(plat.routes().get("default").map(String::as_str), Some("192.168.1.1"));
    assert_eq!(plat.dns(), &vec!["192.168.1.1".to_string()]);
}

#[test]
fn client_without_privilege_stays_down() {
    let mut client = client(test_config());
    assert!(client.up().is_err());
    assert!(!client.is_up());
    assert!(client.down().is_ok());
}

#[test]
fn full_bring_up_is_undone_when_the_pump_cannot_start() {
    let mut client: Client<FakePlatform, u32> =
        Client::new_config(test_config(), FakePlatform::working(temp_state("full")));
    assert!(client.begin_up_full().expect("begin"));
    assert!(client.needs_pump());
    let attached = client.start_pump("spawn pump", Err("no thread".to_string()));
    assert!(client.end_up_full(attached).is_err());
    assert!(!client.is_up());
    assert_eq!(
        client.platform().routes().get("default").map(String::as_str),
        Some("192.168.1.1")
    );
}

#[test]
fn pump_is_held_and_given_back() {
    let mut client: Client<FakePlatform, u32> =
        Client::new_config(test_config(), FakePlatform::working(temp_state("pump")));
    assert!(client.begin_up_full().expect("begin"));
    let attached = client.start_pump("spawn pump", Ok(7));
    assert!(client.end_up_full(attached).is_ok());
    assert!(!client.needs_pump());
    assert!(!client.begin_up_full().expect("again"));
    assert_eq!(client.stop_pump(), Some(7));
    assert_eq!(client.stop_pump(), None);
    assert!(client.down().is_ok());
}

#[test]
fn client_down_stops_pump() {
    // Given: client with an attached pump
    let pump = std::rc::Rc::new(());
    let mut client: Client<FakePlatform, std::rc::Rc<()>> =
        Client::new_config(test_config(), FakePlatform::working(temp_state("stops")));
    client.start_pump("pump", Ok(pump.clone())).expect("start pump");
    assert_eq!(std::rc::Rc::strong_count(&pump), 2);
    // When: going down -> Then: pump stopped, client down, second down safe
    client.down().expect("down stops pump");
    assert!(!client.is_up());
    assert_eq!(std::rc::Rc::strong_count(&pump), 1, "the handle was dropped");
    client.down().expect("second down safe");
    // A new one can be attached.
    assert!(client.needs_pump());
    client.start_pump("pump", Ok(pump.clone())).expect("start again");
    assert!(!client.needs_pump());
}

fn changes(plat: &FakePlatform) -> Vec<&str> {
    plat.call_log().iter().map(String::as_str).filter(|l| l.starts_with("apply:")).collect()
}

#[test]
fn log_tells_of_the_changes_in_order() {
    let mut plat = FakePlatform::working(temp_state("log"));
    lifecycle::up(&mut plat, &test_config()).expect("up");
    assert_eq!(
        changes(&plat),
        [
            "apply:tun_up aether0",
            "apply:pin_route 93.184.216.34 via 192.168.1.1",
            "apply:route 10.0.0.0/8 via 192.168.1.1",
            "apply:route 172.16.0.0/12 via 192.168.1.1",
            "apply:route 192.168.0.0/16 via 192.168.1.1",
            "apply:default_via_tun",
            "apply:force_dns 10.255.0.1",
        ]
    );
    assert_eq!(
        plat.call_log()[..3],
        ["attempt:Resolve", "resolve example.com", "snapshot"].map(String::from)
    );
    assert_eq!(plat.applied_count(), 7);
}

#[test]
fn rules_for_the_tunnel_add_no_route() {
    let config = config_of(
        r#"{"server_addr":"example.com:443","psk":"x","routing":{"rules":[
            {"name":"t","action":"tunnel","when":{"ip":"198.51.100.10"}},
            {"name":"d","action":"direct","when":{"ip":"198.51.100.11"}}]}}"#,
    );
    let mut plat = FakePlatform::working(temp_state("tunnel-rule"));
    lifecycle::up(&mut plat, &config).expect("up");
    assert!(plat.routes().get("198.51.100.10").is_none());
    assert_eq!(
        plat.routes().get("198.51.100.11").map(String::as_str),
        Some("192.168.1.1")
    );
}

#[test]
fn private_blocks_get_no_route_when_they_take_the_tunnel() {
    let config = config_of(
        r#"{"server_addr":"example.com:443","psk":"x",
            "full_tunnel":{"include_private_lan_direct":false}}"#,
    );
    let mut plat = FakePlatform::working(temp_state("no-lan"));
    lifecycle::up(&mut plat, &config).expect("up");
    assert!(plat.routes().get("10.0.0.0/8").is_none());
    assert_eq!(plat.applied_count(), 4);
}

#[test]
fn failure_at_any_step_leaves_the_network_as_it_was() {
    let steps = [
        Step::Resolve,
        Step::TunUp,
        Step::PinRoute,
        Step::DirectRules,
        Step::DefaultViaTun,
        Step::DnsForce,
    ];
    for step in steps {
        let mut plat = FakePlatform::failing_at(step, temp_state("any-step"));
        assert!(lifecycle::up(&mut plat, &test_config()).is_err());
        assert_eq!(plat.routes().len(), 1);
        assert_eq!(plat.routes().get("default").map(String::as_str), Some("192.168.1.1"));
        assert_eq!(plat.dns(), &vec!["192.168.1.1".to_string()]);
        assert!(!plat.tun_exists());
        assert!(!plat.state_exists());
    }
}

#[test]
fn stale_resolvers_are_refused_before_any_change() {
    let mut plat = FakePlatform::working(temp_state("stale"))
        .with_dns(vec!["10.255.0.1".to_string()]);
    assert!(lifecycle::up(&mut plat, &test_config()).is_err());
    assert_eq!(plat.applied_count(), 0);
    assert_eq!(plat.dns(), &vec!["10.255.0.1".to_string()]);
}

#[test]
fn client_is_up_after_the_last_success() {
    let mut client = client(test_config());
    let mut plat = FakePlatform::working(temp_state("run"));
    assert!(client.up().is_err());
    assert!(!client.is_up());
    client.up_on(&mut plat).expect("up on another platform");
    assert!(client.is_up());
    client.up().expect("nothing to do");
    client.down().expect("down");
    assert!(!client.is_up());
    assert!(client.end_up_full(Ok(())).is_ok());
    assert!(client.is_up());
}
