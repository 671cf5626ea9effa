use std::collections::BTreeSet;

use meteo_core::datagram::SeqNo;
use meteo_core::recv_window::{RecvWindow, SeqStatus, WINDOW_BITS};
use proptest::collection;
use proptest::test_runner::{Config, TestRunner};

#[test]
fn window_edges() {
    let mut w = RecvWindow::new(SeqNo(100));
    assert!(w.mark(SeqNo(100 - WINDOW_BITS)), "lowest in-window seq");
    assert!(!w.mark(SeqNo(99 - WINDOW_BITS)), "first seq below the window");
    assert_eq!(w.status(SeqNo(100 - WINDOW_BITS)), SeqStatus::Seen);
    assert_eq!(w.status(SeqNo(99 - WINDOW_BITS)), SeqStatus::OutOfWindow);
    assert_eq!(w.status(SeqNo(99)), SeqStatus::NotSeen);
    assert_eq!(w.status(SeqNo(101)), SeqStatus::Ahead);

    let mut w = RecvWindow::new(SeqNo(10));
    w.mark(SeqNo(10 + WINDOW_BITS));
    assert_eq!(w.status(SeqNo(10)), SeqStatus::Seen);
    let mut w = RecvWindow::new(SeqNo(10));
    w.mark(SeqNo(11 + WINDOW_BITS));
    assert_eq!(w.status(SeqNo(10)), SeqStatus::OutOfWindow);
}

/// The window against a plain set: the status of any number agrees.
#[test]
fn matches_set_model() {
    let mut runner = TestRunner::new(Config {
        failure_persistence: None,
        ..Config::default()
    });
    runner
        .run(&(1u32..1000, collection::vec(0u32..80, 1..200)), |(first, steps)| {
            let mut w = RecvWindow::new(SeqNo(first));
            let mut marked = BTreeSet::from([first]);
            let mut highest = first;
            for step in steps {
                let seq = if step >= 40 {
                    highest + (step - 40)
                } else {
                    highest.saturating_sub(step).max(1)
                };
                let in_window = seq > highest || highest - seq <= WINDOW_BITS;
                assert_eq!(w.mark(SeqNo(seq)), in_window);
                if in_window {
                    marked.insert(seq);
                    highest = highest.max(seq);
                }
            }
            assert_eq!(w.highest(), SeqNo(highest));
            for seq in highest.saturating_sub(WINDOW_BITS + 5).max(1)..highest + 5 {
                let expect = if seq > highest {
                    SeqStatus::Ahead
                } else if highest - seq > WINDOW_BITS {
                    SeqStatus::OutOfWindow
                } else if marked.contains(&seq) {
                    SeqStatus::Seen
                } else {
                    SeqStatus::NotSeen
                };
                assert_eq!(w.status(SeqNo(seq)), expect, "seq {}", seq);
            }
            Ok(())
        })
        .unwrap();
}

#[test]
fn exact_bits_after_marks() {
    let mut w = RecvWindow::new(SeqNo(5));
    assert!(w.mark(SeqNo(7)));
    // Number 5 is two below 7: bit 1.
    assert_eq!(w.seen_bits(), 0b10);
    assert!(w.mark(SeqNo(6)));
    assert_eq!(w.seen_bits(), 0b11);
    assert!(w.mark(SeqNo(7)));
    assert_eq!((w.highest(), w.seen_bits()), (SeqNo(7), 0b11));
}
