use phinet_core::stream::{
    EndReason, Stream, StreamMux, StreamState, CIRCUIT_SENDME_DELIVERED, CIRCUIT_SENDME_INC,
    CIRCUIT_WINDOW_START, STREAM_BUFFER_MAX, STREAM_SENDME_DELIVERED, STREAM_SENDME_INC,
    STREAM_WINDOW_START,
};
use tokio::sync::oneshot::error::TryRecvError;

fn fresh_stream(id: u16) -> Stream {
    Stream {
        id,
        state:   StreamState::Connecting,
        target:  "example.com:80".into(),
        send_window: STREAM_WINDOW_START,
        delivered_since_sendme: 0,
        inbound_buffered: 0,
        inbound_tx: None,
        end_reason: None,
        ready_tx: None,
    }
}

#[test]
fn connecting_then_open() {
    let mut s = fresh_stream(1);
    assert_eq!(s.state, StreamState::Connecting);
    s.on_connected().unwrap();
    assert_eq!(s.state, StreamState::Open);
    assert!(s.is_open());
}

#[test]
fn connected_twice_rejected() {
    let mut s = fresh_stream(1);
    s.on_connected().unwrap();
    assert!(s.on_connected().is_err());
}

#[test]
fn data_before_connected_rejected() {
    let mut s = fresh_stream(1);
    assert!(s.on_data(b"early").is_err());
}

#[test]
fn data_on_closed_rejected() {
    let mut s = fresh_stream(1);
    s.on_connected().unwrap();
    s.close(EndReason::Done);
    assert!(s.on_data(b"post-close").is_err());
}

#[test]
fn sendme_triggered_every_n_cells() {
    let (tx, _rx) = tokio::sync::mpsc::channel::<Vec<u8>>(1000);
    let mut s = fresh_stream(1);
    s.inbound_tx = Some(tx);
    s.on_connected().unwrap();

    // First N-1 cells: no sendme
    for _ in 0..(STREAM_SENDME_DELIVERED - 1) {
        let r = s.on_data(b"x").unwrap();
        assert!(!r);
    }
    // Nth cell: should signal sendme
    let r = s.on_data(b"x").unwrap();
    assert!(r, "SENDME should be due after STREAM_SENDME_DELIVERED cells");
    // Counter reset
    assert_eq!(s.delivered_since_sendme, 0);
}

#[test]
fn window_decreases_on_send_increases_on_sendme() {
    let mut s = fresh_stream(1);
    s.on_connected().unwrap();
    let start = s.send_window;

    for _ in 0..10 { s.try_consume_window().unwrap(); }
    assert_eq!(s.send_window, start - 10);

    s.on_sendme();
    assert_eq!(s.send_window, start - 10 + STREAM_SENDME_INC);
}

#[test]
fn window_capped_at_2x_start() {
    let mut s = fresh_stream(1);
    s.on_connected().unwrap();
    // Bombard with sendmes
    for _ in 0..100 { s.on_sendme(); }
    assert!(s.send_window <= STREAM_WINDOW_START * 2);
}

#[test]
fn window_exhaustion_blocks_send() {
    let mut s = fresh_stream(1);
    s.on_connected().unwrap();
    s.send_window = 1;
    s.try_consume_window().unwrap();
    assert!(s.try_consume_window().is_err(), "send blocked when window at 0");
}

#[test]
fn closed_stream_reports_reason() {
    let mut s = fresh_stream(1);
    s.close(EndReason::Timeout);
    assert_eq!(s.state, StreamState::Closed);
    assert_eq!(s.end_reason, Some(EndReason::Timeout));
    assert!(!s.is_open());
}

#[test]
fn close_is_idempotent() {
    let mut s = fresh_stream(1);
    s.close(EndReason::Done);
    s.close(EndReason::Timeout); // later close replaces reason — that's fine
    assert_eq!(s.state, StreamState::Closed);
}

#[test]
fn end_reason_roundtrip() {
    for i in 0u8..10 {
        let r = EndReason::from_byte(i);
        // Unknown maps to Internal; others are stable.
        let back = r.to_byte();
        if i <= 4 { assert_eq!(back, i); }
    }
}

// ── Mux tests ─────────────────────────────────────────────────────

#[test]
fn mux_allocates_monotonic_ids() {
    let mut mux = StreamMux::new();
    let (id1, _, _) = mux.open_stream("a".into());
    let (id2, _, _) = mux.open_stream("b".into());
    assert!(id2 > id1, "ids increase");
    assert!(id1 > 0,   "id 0 reserved");
}

#[test]
fn mux_tracks_multiple_streams() {
    let mut mux = StreamMux::new();
    let (_a, _, _) = mux.open_stream("host1:80".into());
    let (_b, _, _) = mux.open_stream("host2:80".into());
    let (_c, _, _) = mux.open_stream("host3:80".into());
    assert_eq!(mux.len(), 3);
}

#[test]
fn mux_with_stream_reads_and_writes() {
    let mut mux = StreamMux::new();
    let (id, _, _) = mux.open_stream("t:1".into());
    mux.with_stream(id, |mut s| { s.on_connected().unwrap(); (s, ()) });
    let state = mux.with_stream(id, |s| { let st = s.state; (s, st) }).unwrap();
    assert_eq!(state, StreamState::Open);
}

#[test]
fn mux_accept_side_skips_connecting() {
    let mut mux = StreamMux::new();
    let _rx = mux.accept_stream(42, "in:1".into());
    let state = mux.with_stream(42, |s| { let st = s.state; (s, st) }).unwrap();
    // Exit side of a stream doesn't need the Connecting phase —
    // the TCP connect happens before accept_stream is called.
    assert_eq!(state, StreamState::Open);
}

#[test]
fn mux_remove_cleans_up() {
    let mut mux = StreamMux::new();
    let (id, _, _) = mux.open_stream("t:1".into());
    mux.remove(id);
    assert_eq!(mux.len(), 0);
    assert!(mux.with_stream(id, |s| { let id = s.id; (s, id) }).is_none());
}

#[test]
fn inbound_data_delivered_via_channel() {
    let mut mux = StreamMux::new();
    let (id, mut rx, _) = mux.open_stream("t:1".into());
    mux.with_stream(id, |mut s| { s.on_connected().unwrap(); (s, ()) });

    // Inject a DATA cell
    mux.with_stream(id, |mut s| {
        let due = s.on_data(b"hello").unwrap();
        (s, due)
    });

    // Application reads from the channel
    let got = rx.try_recv().unwrap();
    assert_eq!(&got, b"hello");
}

#[test]
fn ready_signal_fires_on_connected() {
    let mut mux = StreamMux::new();
    let (_id, _rx, mut ready) = mux.open_stream("t:1".into());

    // Ready shouldn't fire yet
    assert!(matches!(ready.try_recv(), Err(TryRecvError::Empty)));

    let (id2, _rx2, mut ready2) = mux.open_stream("t:2".into());

    // Drive the transition
    mux.with_stream(id2, |mut s| { s.on_connected().unwrap(); (s, ()) });

    // Ready fires
    ready2.try_recv().expect("ready recv after on_connected");
}

#[test]
fn ready_signal_drops_cleanly_on_close() {
    let mut mux = StreamMux::new();
    let (id, _rx, mut ready) = mux.open_stream("t:1".into());

    // Closed before CONNECTED: the sender goes with the stream.
    mux.with_stream(id, |mut s| { s.close(EndReason::Destroyed); (s, ()) });
    mux.remove(id);

    assert!(matches!(ready.try_recv(), Err(TryRecvError::Closed)),
        "ready fails when stream closed without connected");
}

#[test]
fn identifiers_skip_zero_when_they_wrap() {
    let mut mux = StreamMux::new();
    let mut last = 0u16;
    for _ in 0..u16::MAX {
        last = mux.fresh_id();
        assert!(last != 0);
    }
    assert_eq!(last, u16::MAX);
    assert_eq!(mux.fresh_id(), 1);
}

#[test]
fn every_open_stream_is_listed() {
    let mut mux = StreamMux::default();
    assert!(mux.is_empty());
    let (a, _, _) = mux.open_stream("a:1".into());
    let (b, _, _) = mux.open_stream("b:1".into());
    let mut ids = mux.active_ids();
    ids.sort();
    assert_eq!(ids, vec![a, b]);
    mux.with_stream(a, |mut s| { s.close(EndReason::Done); (s, ()) });
    let target = mux.with_stream(b, |s| { let t = s.target.clone(); (s, t) });
    assert_eq!(target.unwrap(), "b:1");
}

#[test]
fn a_slow_reader_fills_the_buffer() {
    let mut mux = StreamMux::new();
    let (id, _rx, _) = mux.open_stream("t:1".into());
    mux.with_stream(id, |mut s| { s.on_connected().unwrap(); (s, ()) });
    let r = mux.with_stream(id, |mut s| {
        let r = s.on_data(&[0u8; STREAM_BUFFER_MAX + 1]);
        (s, r)
    });
    assert!(r.unwrap().is_err());
}

#[test]
fn delivery_is_accounted_for() {
    let mut s = fresh_stream(1);
    s.on_connected().unwrap();
    s.delivered_since_sendme = STREAM_SENDME_DELIVERED - 1;
    assert_eq!(s.account_data(3, true).unwrap(), true);
    assert_eq!(s.delivered_since_sendme, 0);
}

#[test]
fn windows_of_circuits_are_twice_those_of_streams() {
    assert_eq!(CIRCUIT_WINDOW_START, 2 * STREAM_WINDOW_START);
    assert_eq!(CIRCUIT_SENDME_INC, CIRCUIT_SENDME_DELIVERED);
}

#[test]
fn data_is_handed_over_as_it_came() {
    let (tx, mut rx) = tokio::sync::mpsc::channel(2);
    let mut s = fresh_stream(1);
    assert!(s.message_for(b"early").is_err());
    assert!(s.on_connected().unwrap().is_none());
    assert!(s.message_for(b"unread").unwrap().is_none());
    s.inbound_tx = Some(tx);
    assert_eq!(s.message_for(b"one").unwrap().unwrap(), b"one");
    s.on_data(b"one").unwrap();
    s.on_data(b"").unwrap();
    // The channel is full: the cell is refused and not counted.
    assert!(s.on_data(b"three").is_err());
    assert_eq!((s.delivered_since_sendme, s.inbound_buffered), (2, 3));
    assert_eq!(rx.try_recv().unwrap(), b"one");
    assert_eq!(rx.try_recv().unwrap(), b"");
    assert!(rx.try_recv().is_err());
    s.on_data(b"three").unwrap();
    assert_eq!(rx.try_recv().unwrap(), b"three");
}

#[test]
fn the_signal_is_given_once() {
    let (tx, mut rx) = tokio::sync::oneshot::channel();
    let mut s = fresh_stream(1);
    s.ready_tx = Some(tx);
    assert!(s.on_connected().unwrap().is_some());
    assert!(s.ready_tx.is_none());
    rx.try_recv().expect("a signal");
    assert!(s.on_connected().is_err());
}
