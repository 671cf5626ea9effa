use meteo_core::wifi_pick::{
    needs_scan, pick_network, round_robin, strongest, Network, Rssi, WifiAction, WifiEvent, WifiTask,
};

const HOME: Network<'static> = ("home", "pw1");
const DACHA: Network<'static> = ("dacha", "pw2");
const NETS: [Network<'static>; 2] = [HOME, DACHA];

#[test]
fn strongest_configured_network_wins() {
    let seen = [
        ("neighbour", Rssi(-30)),
        ("home", Rssi(-70)),
        ("dacha", Rssi(-55)),
    ];
    assert_eq!(strongest(&NETS, &seen), Some((&DACHA, Rssi(-55))));
}

#[test]
fn foreign_ssids_are_ignored() {
    let seen = [("neighbour", Rssi(-20)), ("cafe", Rssi(-40))];
    assert_eq!(strongest(&NETS, &seen), None);
    assert_eq!(strongest(&NETS, &[]), None);
}

#[test]
fn several_aps_of_one_network_take_the_strongest() {
    let seen = [("home", Rssi(-80)), ("dacha", Rssi(-60)), ("home", Rssi(-50))];
    assert_eq!(strongest(&NETS, &seen), Some((&HOME, Rssi(-50))));
}

#[test]
fn tie_keeps_the_first_seen() {
    let seen = [("dacha", Rssi(-60)), ("home", Rssi(-60))];
    assert_eq!(strongest(&NETS, &seen), Some((&DACHA, Rssi(-60))));
}

#[test]
fn round_robin_cycles_through_all_networks() {
    let picked: Vec<_> = (0..5).map(|a| round_robin(&NETS, a).0).collect();
    assert_eq!(picked, ["home", "dacha", "home", "dacha", "home"]);
    assert_eq!(round_robin(&[HOME], usize::MAX), &HOME);
}

#[test]
fn a_scan_decides_and_a_failed_one_takes_turns() {
    assert!(needs_scan(&NETS));
    assert!(!needs_scan(&[HOME]));
    let seen = [("dacha", Rssi(-60))];
    assert_eq!(pick_network(&NETS, 0, Some(&seen)), &DACHA);
    assert_eq!(pick_network(&NETS, 0, Some(&[])), &HOME);
    assert_eq!(pick_network(&NETS, 1, None), &DACHA);
    assert_eq!(pick_network(&NETS, 2, None), &HOME);
}

#[test]
fn connection_task_goes_round() {
    let (mut task, first) = WifiTask::new();
    assert_eq!(first, WifiAction::Connect { attempt: 0 });
    assert_eq!(task.step(WifiEvent::Failed), WifiAction::Rest(5));
    assert_eq!(task.step(WifiEvent::Woke), WifiAction::Connect { attempt: 1 });
    assert_eq!(task.step(WifiEvent::Connected), WifiAction::AwaitEnd);
    assert_eq!(task.step(WifiEvent::Disconnected), WifiAction::Rest(5));
    assert_eq!(task.step(WifiEvent::Woke), WifiAction::Connect { attempt: 2 });
}
