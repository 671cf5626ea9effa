use meteo_core::backlog::{empty_queue, push_evicting, QUEUE_CAPACITY};
use meteo_core::crypto::Cipher;
use meteo_core::sender::{
    server_missing, Action, Event, Sender, CONNECT_RETRY, EMPTY_POLL, SEND_PACING, SEND_RETRY,
};
use meteo_core::time::Duration;
use meteo_core::wire::{payload_len, EpochMillis, PacketStream, SensorData, LEN_PREFIX, MAX_BATCH};

fn cipher() -> Cipher {
    Cipher::new(*b"supersecretkey!1")
}

fn row(t: u64) -> SensorData {
    SensorData {
        baro: None,
        scd: None,
        time: EpochMillis(t),
    }
}

fn sleep(secs: u64) -> Action<'static> {
    Action::Sleep(Duration::from_secs(secs))
}

fn times(packet: &[u8], stream: &mut PacketStream) -> Vec<u64> {
    let len = payload_len(packet[..LEN_PREFIX].try_into().unwrap()).unwrap();
    assert_eq!(LEN_PREFIX + len, packet.len());
    let mut payload = packet[LEN_PREFIX..].to_vec();
    let batch = stream.on_payload(&cipher(), &mut payload).unwrap();
    batch.iter().map(|r| r.time.0).collect()
}

#[test]
fn full_queue_evicts_the_oldest() {
    let mut queue = empty_queue();
    for t in 0..QUEUE_CAPACITY as u64 {
        assert_eq!(push_evicting(&mut queue, row(t)), None);
    }
    assert_eq!(push_evicting(&mut queue, row(100)), Some(row(0)));
    assert_eq!(push_evicting(&mut queue, row(101)), Some(row(1)));
    assert_eq!(queue.len(), QUEUE_CAPACITY);
    assert_eq!(queue.dequeue(), Some(row(2)));
}

#[test]
fn a_batch_is_dropped_only_when_flushed() {
    let mut queue = empty_queue();
    let mut sender = Sender::new(cipher());
    assert_eq!(sender.start(), Action::Connect);
    assert_eq!(sender.step(Event::Failed, &mut queue), sleep(CONNECT_RETRY));
    assert_eq!(sender.step(Event::Woke, &mut queue), Action::Connect);
    assert_eq!(sender.step(Event::Connected, &mut queue), sleep(EMPTY_POLL));

    for t in 0..30 {
        push_evicting(&mut queue, row(t));
    }
    let mut stream = PacketStream::new();
    let first = match sender.step(Event::Woke, &mut queue) {
        Action::Write(bytes) => bytes.to_vec(),
        other => panic!("a packet is written, not {other:?}"),
    };
    assert_eq!(times(&first, &mut stream), (0..24).collect::<Vec<_>>());
    assert_eq!(sender.in_flight(), MAX_BATCH);
    assert_eq!(queue.len(), 6);

    // The socket takes it in pieces: each write offers exactly the rest.
    match sender.step(Event::Written(10), &mut queue) {
        Action::Write(bytes) => assert_eq!(bytes, &first[10..]),
        other => panic!("the rest is written, not {other:?}"),
    }
    // The connection breaks: the batch stays in flight.
    assert_eq!(sender.step(Event::Failed, &mut queue), sleep(SEND_RETRY));
    assert_eq!(sender.in_flight(), MAX_BATCH);
    assert_eq!(sender.step(Event::Woke, &mut queue), Action::Connect);

    // On the new connection the same readings go out, counted from one again.
    let again = match sender.step(Event::Connected, &mut queue) {
        Action::Write(bytes) => bytes.to_vec(),
        other => panic!("a packet is written, not {other:?}"),
    };
    assert_eq!(again, first);
    assert_eq!(queue.len(), 6);
    assert_eq!(sender.step(Event::Written(again.len()), &mut queue), Action::Flush);
    assert_eq!(sender.step(Event::Flushed, &mut queue), sleep(SEND_PACING));
    assert_eq!(sender.in_flight(), 0);

    // The next packet has the next number and the rest of the readings.
    let second = match sender.step(Event::Woke, &mut queue) {
        Action::Write(bytes) => bytes.to_vec(),
        other => panic!("a packet is written, not {other:?}"),
    };
    assert_eq!(times(&second, &mut stream), (24..30).collect::<Vec<_>>());
    assert_eq!(sender.step(Event::Written(second.len()), &mut queue), Action::Flush);
    // A flush that fails keeps the batch too.
    assert_eq!(sender.step(Event::Failed, &mut queue), sleep(SEND_RETRY));
    assert_eq!(sender.in_flight(), 6);
}

#[test]
fn outcomes_tell_whether_the_server_is_there() {
    assert_eq!(server_missing(Event::Failed), Some(true));
    assert_eq!(server_missing(Event::Connected), Some(false));
    assert_eq!(server_missing(Event::Flushed), None);
}

#[test]
fn a_sender_tells_which_outcomes_it_expects() {
    let mut queue = empty_queue();
    push_evicting(&mut queue, row(1));
    let mut sender = Sender::new(cipher());
    assert!(sender.expects(Event::Connected));
    assert!(sender.expects(Event::Failed));
    assert!(!sender.expects(Event::Flushed));
    let Action::Write(bytes) = sender.step(Event::Connected, &mut queue) else {
        panic!("a packet is due");
    };
    let len = bytes.len();
    assert!(sender.expects(Event::Written(1)));
    assert!(sender.expects(Event::Written(len)));
    assert!(!sender.expects(Event::Written(0)));
    assert!(!sender.expects(Event::Written(len + 1)));
    assert!(!sender.expects(Event::Woke));
}
