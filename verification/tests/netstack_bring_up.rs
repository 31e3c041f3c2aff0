//! Bringing the device up and down.

use aetherlink::net::Ipv4Addr;
use aetherlink::netstack::debug::{debug_line, switches_on};
use aetherlink::netstack::manager::NetstackManager;
use aetherlink::netstack::tun::{
    open_through, previous_gateway, rollback_plan, AppliedChange, Naming, NamingStage, RestoreOp,
    Route, Snapshot, TunConfig, TunInterface,
};
use aetherlink::netstack::NetstackError;

#[test]
fn rollback_plan_reverses_lifo() {
    // Given: three applied changes in order
    let log = vec![
        AppliedChange::TunUp("aether0".to_string()),
        AppliedChange::PinnedRoute("9.9.9.9".to_string()),
        AppliedChange::DefaultViaTun,
    ];
    // When: planning rollback
    let plan = rollback_plan(&log);
    // Then: strict reverse (DNS/routes restored in safe order)
    assert_eq!(
        plan,
        vec![
            RestoreOp::RemoveDefaultViaTun,
            RestoreOp::RemovePinnedRoute("9.9.9.9".to_string()),
            RestoreOp::TunDown("aether0".to_string()),
        ]
    );
}

#[test]
fn down_without_up_is_safe() {
    // Given: never brought up
    let mut m = NetstackManager::bring_down_state();
    // When: tearing down
    // Then: no-op Ok
    m.down().expect("down without up");
    assert!(!m.is_up());
}

#[test]
fn open_needs_privilege_and_says_so() {
    // Given: unprivileged test process
    // When: opening a TUN device
    let err = TunInterface::open("aether0").err().expect("must fail here");
    // Then: graceful privilege error, never a panic or half-created device
    let msg = err.message();
    assert!(
        msg.contains("privilege")
            || msg.contains("admin")
            || msg.contains("root")
            || msg.contains("wintun"),
        "got: {msg}"
    );
}

#[test]
fn open_validates_before_touching_driver() {
    // Given: garbage config → Then: validation error, driver never touched.
    let err = TunInterface::open_with(&TunConfig {
        name: String::new(),
        mtu: 1400,
    })
    .err().expect("empty name");
    assert!(err.message().contains("bad tun name"), "got: {}", err.message());
}

#[test]
fn bring_up_without_privilege_fails_cleanly() {
    // Given: fresh manager, no privileges
    let mut m = NetstackManager::bring_down_state();
    // When: bringing up
    // Then: clean Err, state stays down
    assert!(m.bring_up(1400).is_err());
    assert!(!m.is_up());
}

#[test]
fn tun_config_validation_rejects_garbage() {
    // Given: empty / overlong names and out-of-range MTUs
    // When: validating → Then: named errors before any privilege is touched.
    assert!(TunConfig {
        name: String::new(),
        mtu: 1400
    }
    .validate()
    .is_err());
    assert!(TunConfig {
        name: "a".repeat(16),
        mtu: 1400
    }
    .validate()
    .is_err());
    assert!(TunConfig {
        name: "aether0".to_string(),
        mtu: 0
    }
    .validate()
    .is_err());
    assert!(TunConfig {
        name: "aether0".to_string(),
        mtu: 9001
    }
    .validate()
    .is_err());
    // And: sane configs validate cleanly.
    assert!(TunConfig {
        name: "aether0".to_string(),
        mtu: 1400
    }
    .validate()
    .is_ok());
    assert!(TunConfig {
        name: "aether0".to_string(),
        mtu: 1280
    }
    .validate()
    .is_ok());
}

#[test]
fn open_with_valid_config_still_needs_privilege() {
    // Given: valid config, unprivileged process
    // When: opening → Then: privilege error.
    let err = TunInterface::open_with(&TunConfig {
        name: "aether0".to_string(),
        mtu: 1400,
    })
    .err().expect("must fail here");
    let msg = err.message();
    assert!(
        msg.contains("privilege")
            || msg.contains("admin")
            || msg.contains("root")
            || msg.contains("wintun"),
        "got: {msg}"
    );
}

#[test]
fn previous_gateway_is_the_default_route() {
    let mut snap = Snapshot {
        routes: vec![
            Route { dest: "1.2.3.4".to_string(), via: "192.168.1.9".to_string() },
            Route { dest: "default".to_string(), via: "192.168.1.1".to_string() },
        ],
        dns_servers: vec![],
    };
    assert_eq!(previous_gateway(&snap), Some(Ipv4Addr::new(192, 168, 1, 1)));
    snap.routes[1].via = "nowhere".to_string();
    assert_eq!(previous_gateway(&snap), None);
    snap.routes.pop();
    assert_eq!(previous_gateway(&snap), None);
}

#[test]
fn naming_gives_up_after_ten_attempts() {
    let mut naming = Naming::new("aether0");
    let mut pauses = 0;
    loop {
        match naming.stage() {
            NamingStage::Ask => naming.name_is(Ok("Local Area Connection".to_string())),
            NamingStage::Rename => naming.renamed(Err("busy".to_string())),
            NamingStage::Pause => {
                pauses += 1;
                naming.pause_over();
            }
            NamingStage::Named => panic!("must not end with the name"),
            NamingStage::GivenUp => break,
        }
    }
    assert_eq!(pauses, 10);
    assert!(naming.failure().message().contains("aether0"));
}

#[test]
fn naming_ends_when_the_name_is_there() {
    let mut naming = Naming::new("aether0");
    naming.name_is(Ok("aether0".to_string()));
    assert!(matches!(naming.stage(), NamingStage::Named));
}

#[test]
fn disabled_by_default() {
    // Given: a flag that is never set → Then: helper is inert.
    assert!(!switches_on(None));
}

#[test]
fn debug_output_follows_the_switch() {
    assert!(!switches_on(None));
    assert!(switches_on(Some("1")));
    assert!(!switches_on(Some("0")));
    assert!(!switches_on(Some("")));
    assert_eq!(debug_line(12, "up"), "[aetherlink-debug +12ms] up");
}

#[test]
fn device_that_opens_is_not_configured_yet() {
    let mut m = NetstackManager::bring_down_state();
    let e = m.bring_up_probed(9000, Ok(())).err().expect("not configured");
    assert!(matches!(e, NetstackError::InterfaceNotConfigured));
    let refusal = NetstackError::TunError("no rights".to_string());
    let e = m.bring_up_probed(9000, Err(refusal)).err().expect("refused");
    assert!(matches!(e, NetstackError::TunError(why) if why == "no rights"));
    assert!(!m.is_up());
    assert_eq!(m.mtu, 1400);
}

#[test]
fn driver_is_believed_once_the_parameters_fit() {
    let good = TunConfig { name: "aether0".to_string(), mtu: 1400 };
    let bad = TunConfig { name: "aether0".to_string(), mtu: 100 };
    assert_eq!(open_through(&good, Some(Ok(7u32))).expect("opened"), 7);
    let missing = open_through::<u32>(&good, None).err().expect("no driver");
    assert!(missing.message().contains("need root/CAP_NET_ADMIN"));
    let e = open_through(&bad, Some(Ok(7u32))).err().expect("bad mtu");
    assert!(e.message().contains("bad mtu 100"));
}
