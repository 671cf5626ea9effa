use meteo_core::codec::{decode, Ppm, Reading};
use meteo_core::crypto::Cipher;
use meteo_core::datagram::{
    open_up, Ack, AckSeq, BootId, DatagramError, DownHeader, LiveSecs, SeqNo, ServerSalt, UpHeader,
};
use meteo_core::recv_window::RecvWindow;
use meteo_core::supervisor::Uptime;
use meteo_core::time::Duration;
use meteo_core::uplink::{Backlog, Mode, Uplink, ACK_RETRY, ACK_TIMEOUT, BACKLOG_CAPACITY, BATCH_INTERVAL};
use meteo_core::wire::EpochMillis;

const BOOT: BootId = BootId(7);

fn cipher() -> Cipher {
    Cipher::new(*b"supersecretkey!1")
}

fn at(secs: u64) -> Uptime {
    Uptime(Duration::from_secs(secs))
}

fn reading(t: u64) -> Reading {
    Reading {
        time: EpochMillis(t),
        pressure: None,
        baro_temp: None,
        co2: Some(Ppm(400)),
        humidity: None,
        scd_temp: None,
    }
}

fn uplink() -> Uplink {
    Uplink::new(cipher(), BOOT, at(0), Backlog::new())
}

fn opened(dg: &[u8]) -> (UpHeader, Vec<u64>) {
    let mut dg = dg.to_vec();
    let (header, plain) = open_up(&cipher(), &mut dg).unwrap();
    let times = decode(plain).unwrap().collect().unwrap();
    (header, times.iter().map(|r| r.time.0).collect())
}

fn ack(boot: BootId, window: RecvWindow, live_for: u16) -> Vec<u8> {
    let header = DownHeader { salt: ServerSalt(1), ack_seq: AckSeq(1) };
    Ack { boot, window, live_for: LiveSecs(live_for) }.seal(&cipher(), header).to_vec()
}

#[test]
fn a_batch_leaves_and_is_dropped_when_acknowledged() {
    let mut up = uplink();
    assert_eq!(up.deadline(), None);
    for t in 0..3 {
        assert_eq!(up.on_reading(reading(t)), None);
    }
    assert_eq!(up.deadline(), Some(at(BATCH_INTERVAL)));
    assert!(up.poll(at(BATCH_INTERVAL - 1)).is_none());
    let (header, times) = opened(up.poll(at(BATCH_INTERVAL)).unwrap());
    assert_eq!(header, UpHeader { boot: BOOT, seq: SeqNo(1), ack_req: true });
    assert_eq!(times, [0, 1, 2]);
    assert!(up.poll(at(BATCH_INTERVAL)).is_none());
    assert_eq!(up.backlog_len(), 3);

    // A foreign boot's acknowledgement changes nothing.
    let mut other = ack(BootId(8), RecvWindow::new(SeqNo(1)), 0);
    assert_eq!(up.on_datagram(&mut other, at(121)), Ok(false));
    assert_eq!(up.backlog_len(), 3);
    let mut own = ack(BOOT, RecvWindow::new(SeqNo(1)), 0);
    assert_eq!(up.on_datagram(&mut own, at(121)), Ok(true));
    assert_eq!(up.backlog_len(), 0);
    assert_eq!(up.mode(), Mode::Batch);
}

#[test]
fn an_unanswered_batch_is_sent_again_under_a_new_number() {
    let mut up = uplink();
    up.on_reading(reading(1));
    let sent = BATCH_INTERVAL;
    assert!(up.poll(at(sent)).is_some());
    assert_eq!(up.deadline(), Some(at(sent + ACK_TIMEOUT)));
    assert!(up.poll(at(sent + ACK_TIMEOUT)).is_none());
    let again = sent + ACK_TIMEOUT + ACK_RETRY;
    assert_eq!(up.deadline(), Some(at(again)));
    let (header, times) = opened(up.poll(at(again)).unwrap());
    assert_eq!(header.seq, SeqNo(2));
    assert_eq!(times, [1]);
}

#[test]
fn a_refused_datagram_is_sent_again_soon() {
    let mut up = uplink();
    up.on_reading(reading(1));
    assert!(up.poll(at(120)).is_some());
    up.on_send_failed(at(120));
    assert_eq!(up.deadline(), Some(at(125)));
    assert!(up.poll(at(124)).is_none());
    assert_eq!(opened(up.poll(at(125)).unwrap()).0.seq, SeqNo(2));
}

#[test]
fn live_mode_sends_at_once_until_its_time_is_over() {
    let mut up = uplink();
    up.on_reading(reading(1));
    up.poll(at(120)).unwrap();
    let mut live = ack(BOOT, RecvWindow::new(SeqNo(1)), 100);
    assert_eq!(up.on_datagram(&mut live, at(121)), Ok(true));
    assert_eq!(up.mode(), Mode::Live { until: at(221) });
    up.on_reading(reading(2));
    let (header, times) = opened(up.poll(at(130)).unwrap());
    assert_eq!(times, [2]);
    assert!(!header.ack_req);
    // Close to the end an acknowledgement is asked for.
    up.on_reading(reading(3));
    assert!(opened(up.poll(at(161)).unwrap()).0.ack_req);
    assert!(up.poll(at(171)).is_none());
    assert!(up.poll(at(221)).is_none());
    assert_eq!(up.mode(), Mode::Batch);
}

#[test]
fn lost_readings_go_out_again_and_delivered_ones_do_not() {
    let mut up = uplink();
    let mut live = ack(BOOT, RecvWindow::new(SeqNo(0)), 1000);
    up.on_datagram(&mut live, at(1)).unwrap();
    for t in 1..=3 {
        up.on_reading(reading(t));
        assert_eq!(opened(up.poll(at(1 + t)).unwrap()).0.seq, SeqNo(t as u32));
    }
    // Numbers 1 and 3 are stored, 2 is lost.
    let mut window = RecvWindow::new(SeqNo(3));
    window.mark(SeqNo(1));
    let mut report = ack(BOOT, window, 1000);
    up.on_datagram(&mut report, at(9)).unwrap();
    assert_eq!(up.backlog_len(), 1);
    assert_eq!(opened(up.poll(at(9)).unwrap()).1, [2]);
}

#[test]
fn full_backlog_returns_the_oldest() {
    let mut up = uplink();
    for t in 0..BACKLOG_CAPACITY as u64 {
        assert_eq!(up.on_reading(reading(t)), None);
    }
    assert_eq!(up.on_reading(reading(9999)), Some(reading(0)));
    assert_eq!(up.backlog_len(), BACKLOG_CAPACITY);
    // A full backlog leaves in several datagrams; only the last of a burst asks.
    let mut asked = Vec::new();
    while let Some(dg) = up.poll(at(120)) {
        asked.push(opened(dg).0.ack_req);
    }
    assert!(asked.len() > 1);
    assert!(asked[..asked.len() - 1].iter().all(|a| !a));
    assert_eq!(asked.last(), Some(&true));
}

#[test]
fn garbage_changes_nothing() {
    let mut up = uplink();
    up.on_reading(reading(1));
    assert_eq!(
        up.on_datagram(&mut [0u8; 3], at(1)),
        Err(DatagramError::Length(3))
    );
    assert_eq!(up.backlog_len(), 1);
}

#[test]
fn each_datagram_has_the_next_number() {
    let mut up = uplink();
    up.on_reading(reading(1));
    let mut now = BATCH_INTERVAL;
    for n in 1..=4 {
        assert!(up.can_send());
        let (header, times) = opened(up.poll(at(now)).unwrap());
        assert_eq!((header.seq, times), (SeqNo(n), vec![1]));
        // Nobody answers.
        assert!(up.poll(at(now + ACK_TIMEOUT)).is_none());
        now += ACK_TIMEOUT + ACK_RETRY;
    }
}

#[test]
fn a_batch_ends_with_a_request_and_the_answer_turns_live_mode_on() {
    let mut up = uplink();
    for t in 0..1000 {
        up.on_reading(reading(t * 30_000));
    }
    let mut asked = Vec::new();
    while let Some(dg) = up.poll(at(BATCH_INTERVAL)) {
        asked.push(opened(dg).0.ack_req);
    }
    assert!(asked.len() > 1);
    assert_eq!(asked.pop(), Some(true));
    assert!(!asked.contains(&true));
    let last = SeqNo(asked.len() as u32 + 1);
    let mut answer = ack(BOOT, RecvWindow::new(last), 60);
    assert_eq!(up.on_datagram(&mut answer, at(BATCH_INTERVAL + 1)), Ok(true));
    assert_eq!(up.mode(), Mode::Live { until: at(BATCH_INTERVAL + 61) });
}
