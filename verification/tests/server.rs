use meteo_core::codec::{CodecError, Encoder, Ppm, Reading};
use meteo_core::crypto::Cipher;
use meteo_core::datagram::{
    open_ack, plain_area, seal, BootId, DatagramError, Header, LiveSecs, SeqNo, ServerSalt, UpHeader, MAX_DATAGRAM,
};
use meteo_core::recv_window::SeqStatus;
use meteo_core::server::{ack_due, Admission, LiveLease, Outcome, Server, ServerError, BOOT_IDLE_FORGET};
use meteo_core::time::Duration;
use meteo_core::wire::EpochMillis;

fn cipher() -> Cipher {
    Cipher::new(*b"supersecretkey!1")
}

fn reading(t: u64) -> Reading {
    Reading {
        time: EpochMillis(t),
        pressure: None,
        baro_temp: None,
        co2: Some(Ppm(400 + t as u16)),
        humidity: None,
        scd_temp: None,
    }
}

fn datagram(boot: u32, seq: u32, ack_req: bool) -> Vec<u8> {
    let mut buf = [0u8; MAX_DATAGRAM];
    let mut enc = Encoder::new(plain_area(&mut buf), EpochMillis(u64::from(seq)));
    assert!(enc.push(&reading(u64::from(seq))));
    let plain_len = enc.plain_len();
    let header = Header::Up(UpHeader {
        boot: BootId(boot),
        seq: SeqNo(seq),
        ack_req,
    });
    let len = seal(&cipher(), header, &mut buf, plain_len);
    buf[..len].to_vec()
}

/// A genuine datagram with any plaintext.
fn raw_datagram(seq: u32, plain: &[u8]) -> Vec<u8> {
    let mut buf = [0u8; MAX_DATAGRAM];
    plain_area(&mut buf)[..plain.len()].copy_from_slice(plain);
    let header = Header::Up(UpHeader {
        boot: BootId(5),
        seq: SeqNo(seq),
        ack_req: true,
    });
    let len = seal(&cipher(), header, &mut buf, plain.len());
    buf[..len].to_vec()
}

fn t0() -> Duration {
    Duration::from_secs(1)
}

#[test]
fn nothing_to_ack_before_ingest() {
    let mut server = Server::new(cipher(), ServerSalt(1));
    let mut dg = datagram(5, 1, true);
    let inc = server.receive(&mut dg, t0()).ok().unwrap();
    assert!(!inc.duplicate);
    assert_eq!(inc.collect_readings().unwrap(), vec![reading(1)]);
    assert!(server.ack(BootId(5), LiveSecs::off()).is_none());

    let mut dg = datagram(5, 1, true);
    assert!(!server.receive(&mut dg, t0()).ok().unwrap().duplicate);
}

#[test]
fn ack_reports_ingested_window_and_duplicates_are_detected() {
    let mut server = Server::new(cipher(), ServerSalt(9));
    for seq in [1, 3] {
        let mut dg = datagram(5, seq, false);
        let inc = server.receive(&mut dg, t0()).ok().unwrap();
        assert!(!inc.duplicate);
        server.ingested(BootId(5), SeqNo(seq), t0());
    }
    let mut dg = datagram(5, 3, true);
    assert!(server.receive(&mut dg, t0()).ok().unwrap().duplicate);

    let mut ack = server.ack(BootId(5), LiveSecs(42)).unwrap();
    let (header, ack) = open_ack(&cipher(), &mut ack).unwrap();
    assert_eq!(header.salt, ServerSalt(9));
    assert_eq!(ack.boot, BootId(5));
    assert_eq!(ack.live_for, LiveSecs(42));
    assert_eq!(ack.window.status(SeqNo(3)), SeqStatus::Seen);
    assert_eq!(ack.window.status(SeqNo(2)), SeqStatus::NotSeen);
    assert_eq!(ack.window.status(SeqNo(1)), SeqStatus::Seen);

    let mut next = server.ack(BootId(5), LiveSecs::off()).unwrap();
    assert!(open_ack(&cipher(), &mut next).unwrap().0.ack_seq > header.ack_seq);
}

#[test]
fn boots_have_separate_windows_and_idle_ones_are_forgotten() {
    let mut server = Server::new(cipher(), ServerSalt(1));
    let mut dg = datagram(5, 1, false);
    server.receive(&mut dg, t0()).ok().unwrap();
    server.ingested(BootId(5), SeqNo(1), t0());

    let mut other = datagram(6, 1, false);
    assert!(!server.receive(&mut other, t0()).ok().unwrap().duplicate);

    let late = t0().plus(Duration::from_secs(BOOT_IDLE_FORGET));
    let mut dg = datagram(6, 2, false);
    server.receive(&mut dg, late).ok().unwrap();
    let mut dg = datagram(5, 1, false);
    assert!(!server.receive(&mut dg, late).ok().unwrap().duplicate);
}

#[test]
fn garbage_is_rejected() {
    let mut server = Server::new(cipher(), ServerSalt(1));
    let mut dg = datagram(5, 1, false);
    dg[12] ^= 1;
    assert!(server.receive(&mut dg, t0()).is_err());
}

#[test]
fn live_lease() {
    let lease_len = Duration::from_secs(300);
    let mut lease = LiveLease::new();
    assert_eq!(lease.remaining(t0()), LiveSecs::off());
    lease.request(t0(), lease_len);
    assert_eq!(lease.remaining(t0()), LiveSecs(300));
    assert_eq!(
        lease.remaining(t0().plus(Duration::from_millis(100_500))),
        LiveSecs(199)
    );
    lease.request(t0().saturating_sub(Duration::from_secs(1)), lease_len);
    assert_eq!(lease.remaining(t0()), LiveSecs(300));
    assert_eq!(lease.remaining(t0().plus(lease_len)), LiveSecs::off());
}

#[test]
fn a_long_lease_is_cut_to_what_an_ack_carries() {
    let mut lease = LiveLease::default();
    lease.request(t0(), Duration::from_secs(100_000));
    assert_eq!(lease.remaining(t0()), LiveSecs(u16::MAX));
}

#[test]
fn a_boot_heard_of_within_the_day_is_remembered() {
    let mut server = Server::new(cipher(), ServerSalt(1));
    server.ingested(BootId(5), SeqNo(1), t0());
    let almost = t0().plus(Duration::from_millis(BOOT_IDLE_FORGET * 1000 - 1));
    let mut dg = datagram(5, 1, false);
    assert!(server.receive(&mut dg, almost).ok().unwrap().duplicate);
}

#[test]
fn server_errors_name_their_cause() {
    let mut server = Server::new(cipher(), ServerSalt(1));
    let mut short = vec![0u8; 3];
    assert_eq!(
        server.receive(&mut short, t0()).err(),
        Some(ServerError::Datagram(DatagramError::Length(3)))
    );
    let mut dg = raw_datagram(1, &[]);
    assert_eq!(
        server.receive(&mut dg, t0()).err(),
        Some(ServerError::Codec(CodecError::Truncated))
    );
    let mut dg = raw_datagram(2, &[0, 0x20]);
    assert_eq!(
        server.receive(&mut dg, t0()).ok().unwrap().collect_readings(),
        Err(ServerError::Codec(CodecError::ReservedPresence(0x20)))
    );
}

#[test]
fn answers_follow_storing() {
    let mut server = Server::new(cipher(), ServerSalt(3));
    let now = t0();

    // Storing fails: neither mark nor answer, and the datagram is fresh again.
    for _ in 0..2 {
        let mut dg = datagram(5, 1, true);
        match server.take_in(&mut dg, now) {
            Admission::Fresh { boot, seq, ack_req, readings } => {
                assert_eq!((boot, seq, ack_req), (BootId(5), SeqNo(1), true));
                assert_eq!(readings, vec![reading(1)]);
                assert!(server
                    .conclude(boot, seq, ack_req, Outcome::Failed, now, LiveSecs(7))
                    .is_none());
            }
            _ => panic!("a datagram that is not stored is fresh"),
        }
    }
    // Stored: the answer holds the number.
    let mut ack = server
        .conclude(BootId(5), SeqNo(1), true, Outcome::Stored, now, LiveSecs(7))
        .unwrap();
    let (_, ack) = open_ack(&cipher(), &mut ack).unwrap();
    assert_eq!(ack.window.status(SeqNo(1)), SeqStatus::Seen);
    assert_eq!(ack.live_for, LiveSecs(7));
    // A duplicate is answered again, but only if it asks.
    let mut dg = datagram(5, 1, true);
    assert!(matches!(
        server.take_in(&mut dg, now),
        Admission::Duplicate { boot: BootId(5), seq: SeqNo(1), ack_req: true }
    ));
    assert!(server
        .conclude(BootId(5), SeqNo(1), true, Outcome::Duplicate, now, LiveSecs::off())
        .is_some());
    assert!(server
        .conclude(BootId(5), SeqNo(1), false, Outcome::Duplicate, now, LiveSecs::off())
        .is_none());
    // Undecodable and foreign datagrams.
    let mut dg = raw_datagram(9, &[0, 0x20]);
    assert!(matches!(
        server.take_in(&mut dg, now),
        Admission::Undecodable { error: CodecError::ReservedPresence(0x20), .. }
    ));
    let mut dg = datagram(5, 10, true);
    dg[20] ^= 1;
    assert!(matches!(
        server.take_in(&mut dg, now),
        Admission::Refused(ServerError::Datagram(DatagramError::Decrypt))
    ));
}

#[test]
fn ack_rule() {
    assert!(ack_due(true, true, false));
    assert!(ack_due(true, false, true));
    assert!(!ack_due(true, false, false));
    assert!(!ack_due(false, true, true));
}

#[test]
fn a_new_server_has_numbers_left() {
    assert!(Server::new(cipher(), ServerSalt(1)).can_ack());
}
