use meteo_core::supervisor::{
    classify, take_boot_fault, BootFault, Heartbeat, ResetKind, RtcArea, Supervisor, Uptime, Verdict, FAULT_MAGIC,
    NET_STALL_LIMIT, PANIC_MARK, SENSOR_STALL_LIMIT,
};
use meteo_core::time::Duration;

fn at(secs: u64) -> Uptime {
    Uptime(Duration::from_secs(secs))
}

const SENSOR_STALLED: Verdict = Verdict::Withhold {
    sensor_ok: false,
    net_ok: true,
};

#[test]
fn boot_grace_never_withholds_before_first_beat() {
    let mut sup = Supervisor::new(at(0), Heartbeat(0), Heartbeat(0));
    for t in (10..=3600).step_by(10) {
        assert_eq!(
            sup.tick(at(t), Heartbeat(0), Heartbeat(0)),
            Verdict::Feed,
            "t={t}"
        );
    }
}

#[test]
fn sensor_stall_withholds_exactly_at_limit() {
    let mut sup = Supervisor::new(at(0), Heartbeat(0), Heartbeat(0));
    assert_eq!(sup.tick(at(10), Heartbeat(1), Heartbeat(0)), Verdict::Feed);
    let limit = SENSOR_STALL_LIMIT;
    assert_eq!(
        sup.tick(at(10 + limit - 1), Heartbeat(1), Heartbeat(0)),
        Verdict::Feed
    );
    assert_eq!(
        sup.tick(at(10 + limit), Heartbeat(1), Heartbeat(0)),
        SENSOR_STALLED
    );
    assert_eq!(
        sup.tick(at(10 + limit + 60), Heartbeat(1), Heartbeat(0)),
        SENSOR_STALLED
    );
}

#[test]
fn net_stall_uses_its_own_limit() {
    let mut sup = Supervisor::new(at(0), Heartbeat(0), Heartbeat(0));
    assert_eq!(sup.tick(at(5), Heartbeat(0), Heartbeat(1)), Verdict::Feed);
    let limit = NET_STALL_LIMIT;
    assert_eq!(
        sup.tick(at(5 + limit - 1), Heartbeat(0), Heartbeat(1)),
        Verdict::Feed
    );
    assert_eq!(
        sup.tick(at(5 + limit), Heartbeat(0), Heartbeat(1)),
        Verdict::Withhold {
            sensor_ok: true,
            net_ok: false,
        }
    );
}

#[test]
fn revival_before_hw_timeout_resumes_feeding() {
    let mut sup = Supervisor::new(at(0), Heartbeat(0), Heartbeat(0));
    sup.tick(at(10), Heartbeat(1), Heartbeat(1));
    let stalled_at = 10 + SENSOR_STALL_LIMIT;
    assert_eq!(
        sup.tick(at(stalled_at), Heartbeat(1), Heartbeat(2)),
        SENSOR_STALLED
    );
    assert_eq!(
        sup.tick(at(stalled_at + 10), Heartbeat(2), Heartbeat(3)),
        Verdict::Feed
    );
    let again = stalled_at + 10 + SENSOR_STALL_LIMIT;
    assert_eq!(sup.tick(at(again - 1), Heartbeat(2), Heartbeat(4)), Verdict::Feed);
    assert_eq!(sup.tick(at(again), Heartbeat(2), Heartbeat(5)), SENSOR_STALLED);
}

#[test]
fn heartbeat_wraparound_still_counts_as_life() {
    let mut sup = Supervisor::new(at(0), Heartbeat(u32::MAX), Heartbeat(0));
    assert_eq!(sup.tick(at(10), Heartbeat(0), Heartbeat(0)), Verdict::Feed);
    let limit = SENSOR_STALL_LIMIT;
    assert_eq!(
        sup.tick(at(10 + limit), Heartbeat(0), Heartbeat(0)),
        SENSOR_STALLED
    );
}

#[test]
fn boot_fault_classification() {
    for marked in [false, true] {
        assert_eq!(classify(ResetKind::RtcWatchdog, marked), BootFault::WdtStall);
        assert_eq!(classify(ResetKind::PowerOn, marked), BootFault::Clean);
        assert_eq!(classify(ResetKind::Other, marked), BootFault::Clean);
    }
    assert_eq!(classify(ResetKind::Software, true), BootFault::Panic);
    assert_eq!(classify(ResetKind::Software, false), BootFault::Clean);
}

#[test]
fn faults_are_counted_from_power_on() {
    let garbage = RtcArea {
        magic: 0xABCD,
        panic_mark: PANIC_MARK,
        fault_count: 99,
    };
    let (report, area) = take_boot_fault(garbage, ResetKind::Software);
    assert_eq!((report.fault, report.faults_since_power_on), (BootFault::Clean, 0));
    assert_eq!(area.magic, FAULT_MAGIC);

    let panicked = RtcArea {
        panic_mark: PANIC_MARK,
        ..area
    };
    let (report, area) = take_boot_fault(panicked, ResetKind::Software);
    assert_eq!((report.fault, report.faults_since_power_on), (BootFault::Panic, 1));
    assert_eq!(area.panic_mark, 0);

    let (report, area) = take_boot_fault(area, ResetKind::Software);
    assert_eq!((report.fault, report.faults_since_power_on), (BootFault::Clean, 1));
    let (report, area) = take_boot_fault(area, ResetKind::RtcWatchdog);
    assert_eq!((report.fault, report.faults_since_power_on), (BootFault::WdtStall, 2));
    let (report, _) = take_boot_fault(area, ResetKind::PowerOn);
    assert_eq!((report.fault, report.faults_since_power_on), (BootFault::Clean, 0));
}
