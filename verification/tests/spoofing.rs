use kancut::scan::NetworkDevice;
use kancut::sessions::SpoofingSessions;

fn device(ip: &str) -> NetworkDevice {
    NetworkDevice {
        ip: ip.to_string(),
        mac: "aa:bb:cc:dd:ee:ff".to_string(),
        hostname: "Unknown".to_string(),
        vendor: "ARP Scan".to_string(),
    }
}

#[test]
fn start_rejects_unparseable_addresses_and_registers_nothing() {
    let mut reg = SpoofingSessions::new();
    let r = reg.start_spoofing(
        "not-an-ip".to_string(),
        "192.168.1.1".to_string(),
        "eth0".to_string(),
    );
    assert_eq!(r.unwrap_err(), "Invalid target IP");
    let r2 = reg.start_spoofing(
        "192.168.1.5".to_string(),
        "999.0.0.1".to_string(),
        "eth0".to_string(),
    );
    assert_eq!(r2.unwrap_err(), "Invalid gateway IP");
    assert_eq!(reg.inner().len(), 0);
}

#[test]
fn started_session_is_listed_active_with_zero_packets() {
    let mut reg = SpoofingSessions::new();
    let id = reg
        .start_spoofing("192.168.1.5".to_string(), "192.168.1.1".to_string(), "eth0".to_string())
        .unwrap();
    assert_eq!(id.len(), 36);
    let sessions = reg.get_active_sessions().unwrap();
    assert_eq!(sessions.len(), 1);
    assert_eq!(sessions[0].id, id);
    assert_eq!(sessions[0].target_ip, "192.168.1.5");
    assert_eq!(sessions[0].gateway_ip, "192.168.1.1");
    assert_eq!(sessions[0].interface, "eth0");
    assert!(sessions[0].is_active);
    assert_eq!(sessions[0].packets_sent, 0);
}

#[test]
fn spoof_cycles_credit_zero_to_two_packets_monotonically() {
    let mut reg = SpoofingSessions::new();
    let id = reg
        .start_spoofing("192.168.1.5".to_string(), "192.168.1.1".to_string(), "eth0".to_string())
        .unwrap();
    assert!(!reg.spoof_should_stop(&id));
    reg.record_spoof_cycle(&id, true, true);
    reg.record_spoof_cycle(&id, true, false);
    reg.record_spoof_cycle(&id, false, false);
    let sessions = reg.get_active_sessions().unwrap();
    assert_eq!(sessions[0].packets_sent, 3);
}

#[test]
fn stop_fails_on_unknown_id_and_deactivates_immediately_on_known_id() {
    let mut reg = SpoofingSessions::new();
    let missing = reg.stop_spoofing("no-such-session".to_string());
    assert_eq!(missing.unwrap_err(), "Session not found");
    let id = reg
        .start_spoofing("192.168.1.5".to_string(), "192.168.1.1".to_string(), "eth0".to_string())
        .unwrap();
    let stopped = reg.stop_spoofing(id.clone()).unwrap();
    assert!(stopped);
    // inactive at once, before any background loop observes the signal
    let sessions = reg.get_active_sessions().unwrap();
    assert_eq!(sessions.len(), 1);
    assert!(!sessions[0].is_active);
    assert!(reg.spoof_should_stop(&id));
}

#[test]
fn stopped_sessions_stay_in_the_registry() {
    let mut reg = SpoofingSessions::new();
    let id = reg
        .start_spoofing("192.168.1.5".to_string(), "192.168.1.1".to_string(), "eth0".to_string())
        .unwrap();
    reg.stop_spoofing(id.clone()).unwrap();
    reg.mark_session_stopped(&id);
    let sessions = reg.get_active_sessions().unwrap();
    assert_eq!(sessions.len(), 1);
    assert_eq!(sessions[0].id, id);
    assert!(!sessions[0].is_active);
}

#[test]
fn bulk_start_skips_the_gateway_and_failing_devices() {
    let mut reg = SpoofingSessions::new();
    let devices = vec![
        device("192.168.1.5"),
        device("192.168.1.1"),  // the gateway itself: never spoofed
        device("garbage-ip"),  // start fails; the batch goes on
        device("192.168.1.7"),
    ];
    let ids = reg
        .start_spoof_all(devices, "192.168.1.1".to_string(), "eth0".to_string())
        .unwrap();
    assert_eq!(ids.len(), 2);
    let sessions = reg.get_active_sessions().unwrap();
    assert_eq!(sessions.len(), 2);
    for s in &sessions {
        assert_ne!(s.target_ip, "192.168.1.1");
        assert_eq!(s.gateway_ip, "192.168.1.1");
        assert!(s.is_active);
        assert_eq!(s.packets_sent, 0);
    }
    let targets: Vec<String> = sessions.iter().map(|s| s.target_ip.clone()).collect();
    assert!(targets.contains(&"192.168.1.5".to_string()));
    assert!(targets.contains(&"192.168.1.7".to_string()));
}
