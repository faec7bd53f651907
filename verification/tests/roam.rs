use longfred_proto::network::{BssCandidate, RoamAction, RoamEngine};
use longfred_proto::persist::RadioConfig;

fn cfg(roam: bool) -> RadioConfig {
    let mut c = RadioConfig::default();
    c.roam_enabled = roam;
    c
}

#[test]
fn below_threshold_no_roam_disabled() {
    let mut eng = RoamEngine::new([1; 6]);
    let c = cfg(false);
    assert_eq!(eng.on_sample(-80, 0, &c), RoamAction::Idle);
}

#[test]
fn above_threshold_idle() {
    let mut eng = RoamEngine::new([1; 6]);
    let c = cfg(true);
    assert_eq!(eng.on_sample(-50, 0, &c), RoamAction::Idle);
    assert_eq!(eng.on_sample(-72, 1000, &c), RoamAction::Idle);
}

#[test]
fn debounce_before_scan() {
    let mut eng = RoamEngine::new([1; 6]);
    let c = cfg(true);
    assert_eq!(eng.on_sample(-80, 0, &c), RoamAction::Idle);
    assert_eq!(eng.on_sample(-80, 250, &c), RoamAction::Idle);
    assert_eq!(eng.on_sample(-80, 500, &c), RoamAction::Idle);
}

#[test]
fn scan_after_interval() {
    let mut eng = RoamEngine::new([1; 6]);
    let c = cfg(true);
    assert_eq!(eng.on_sample(-80, 0, &c), RoamAction::Idle);
    assert_eq!(eng.on_sample(-80, 250, &c), RoamAction::Idle);
    assert_eq!(eng.on_sample(-80, 500, &c), RoamAction::Idle);
    assert_eq!(eng.on_sample(-80, 10_001, &c), RoamAction::Scan { channels: None });
}

#[test]
fn above_threshold_resets_debounce() {
    let mut eng = RoamEngine::new([1; 6]);
    let c = cfg(true);
    assert_eq!(eng.on_sample(-80, 0, &c), RoamAction::Idle);
    assert_eq!(eng.on_sample(-80, 250, &c), RoamAction::Idle);
    assert_eq!(eng.on_sample(-50, 500, &c), RoamAction::Idle);
    assert_eq!(eng.on_sample(-80, 750, &c), RoamAction::Idle);
    assert_eq!(eng.on_sample(-80, 1000, &c), RoamAction::Idle);
    assert_eq!(eng.on_sample(-80, 1250, &c), RoamAction::Idle);
}

#[test]
fn hysteresis_rejects_weak_candidate() {
    let eng = RoamEngine::new([1; 6]);
    let c = cfg(true);
    let candidates = [BssCandidate { bssid: [2; 6], channel: 6, rssi: -78 }];
    assert_eq!(eng.on_scan_results(-75, &candidates, &c), None);
}

#[test]
fn hysteresis_accepts_strong_candidate() {
    let eng = RoamEngine::new([1; 6]);
    let c = cfg(true);
    let candidates = [BssCandidate { bssid: [2; 6], channel: 6, rssi: -65 }];
    let pick = eng.on_scan_results(-75, &candidates, &c).unwrap();
    assert_eq!(pick.bssid, [2; 6]);
}

#[test]
fn picks_strongest_of_multiple() {
    let eng = RoamEngine::new([1; 6]);
    let c = cfg(true);
    let candidates = [
        BssCandidate { bssid: [2; 6], channel: 6, rssi: -70 },
        BssCandidate { bssid: [3; 6], channel: 11, rssi: -60 },
    ];
    let pick = eng.on_scan_results(-75, &candidates, &c).unwrap();
    assert_eq!(pick.bssid, [3; 6]);
}

#[test]
fn ignores_same_bssid() {
    let eng = RoamEngine::new([1; 6]);
    let c = cfg(true);
    let candidates = [BssCandidate { bssid: [1; 6], channel: 1, rssi: -50 }];
    assert_eq!(eng.on_scan_results(-80, &candidates, &c), None);
}

#[test]
fn scan_results_ignored_when_roaming_disabled() {
    let eng = RoamEngine::new([1; 6]);
    let candidates = [BssCandidate { bssid: [2; 6], channel: 6, rssi: -20 }];
    assert_eq!(eng.on_scan_results(-90, &candidates, &cfg(false)), None);
}

#[test]
fn cooldown_prevents_immediate_re_roam() {
    let mut eng = RoamEngine::new([1; 6]);
    let c = cfg(true);
    assert_eq!(eng.on_sample(-80, 0, &c), RoamAction::Idle);
    assert_eq!(eng.on_sample(-80, 5_000, &c), RoamAction::Idle);
    assert_eq!(eng.on_sample(-80, 10_001, &c), RoamAction::Scan { channels: None });
    eng.on_roam_done([2; 6], 10_001, &c);
    assert_eq!(eng.on_sample(-80, 10_250, &c), RoamAction::Idle);
    assert_eq!(eng.on_sample(-80, 20_001, &c), RoamAction::Idle);
    assert_eq!(eng.on_sample(-80, 30_001, &c), RoamAction::Scan { channels: None });
}

#[test]
fn parse_neighbor_report_basic() {
    let report = [
        0x02, 0x03, 0x04, 0x05, 0x06, 0x07, 0x00, 0x00, 0x00, 0x00, 0x06, 0x06, 0x00, 0x0a, 0x0b,
        0x0c, 0x0d, 0x0e, 0x0f, 0x00, 0x00, 0x00, 0x00, 0x0e, 0x0b, 0x00,
    ];
    let neighbors = RoamEngine::parse_neighbor_report(&report);
    assert_eq!(neighbors.len(), 2);
    assert_eq!(neighbors[0].bssid, [0x02, 0x03, 0x04, 0x05, 0x06, 0x07]);
    assert_eq!(neighbors[0].channel, 6);
    assert_eq!(neighbors[1].bssid, [0x0a, 0x0b, 0x0c, 0x0d, 0x0e, 0x0f]);
    assert_eq!(neighbors[1].channel, 11);
}

#[test]
fn parse_neighbor_report_truncated() {
    let report = [
        0x01, 0x02, 0x03, 0x04, 0x05, 0x06, 0x00, 0x00, 0x00, 0x00, 0x06, 0x01, 0x00, 0xFF, 0xFF,
        0xFF, 0xFF, 0xFF,
    ];
    let neighbors = RoamEngine::parse_neighbor_report(&report);
    assert_eq!(neighbors.len(), 1);
    assert_eq!(neighbors[0].channel, 1);
}

#[test]
fn parse_neighbor_report_empty() {
    let neighbors = RoamEngine::parse_neighbor_report(&[]);
    assert!(neighbors.is_empty());
}

#[test]
fn parse_neighbor_report_keeps_at_most_eight() {
    let report = vec![0u8; 13 * 10];
    assert_eq!(RoamEngine::parse_neighbor_report(&report).len(), 8);
}
