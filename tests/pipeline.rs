use midi_broker::frame::note_frame;
use midi_broker::listener::{sweep_batches, ChannelMessage, PortRead, ReadOutcome, CHANNEL_CAPACITY};
use midi_broker::note::{DecodingFault, Key, Note, RawEvent};
use midi_broker::server::{batch_frames, ServerAction, ServerEvent, ServerState};

fn ev(data1: u8, status: u8, timestamp: u32) -> RawEvent {
    RawEvent { status, data1, data2: 64, timestamp }
}

#[test]
fn sweep_sends_one_batch_per_device_with_events() {
    let reads = vec![
        PortRead { device: 1, outcome: ReadOutcome::Events(vec![ev(60, 144, 1), ev(62, 144, 2)]) },
        PortRead { device: 2, outcome: ReadOutcome::Nothing },
        PortRead { device: 3, outcome: ReadOutcome::Failed },
        PortRead { device: 4, outcome: ReadOutcome::Events(vec![]) },
        PortRead { device: 5, outcome: ReadOutcome::Events(vec![ev(61, 128, 3)]) },
    ];
    let batches = sweep_batches(&reads);
    assert_eq!(batches.len(), 2);
    assert_eq!(batches[0].device, 1);
    assert_eq!(batches[0].events, vec![ev(60, 144, 1), ev(62, 144, 2)]);
    assert_eq!(batches[1].device, 5);
    assert_eq!(batches[1].events, vec![ev(61, 128, 3)]);
    assert!(sweep_batches(&vec![]).is_empty());
}

#[test]
fn batch_frames_keep_batch_order() {
    let msg = ChannelMessage { events: vec![ev(60, 144, 1000), ev(61, 128, 1001)], device: 0 };
    let frames = batch_frames(&msg).unwrap();
    assert_eq!(frames.len(), 2);
    assert_eq!(frames[0], note_frame(&Note { octave: 5, key: Key::C, pressed: true, timestamp: 1000 }));
    assert_eq!(
        String::from_utf8(frames[1].clone()).unwrap(),
        r#"{"octave":5,"key":"Cs","pressed":false,"timestamp":1001}"#
    );
    assert!(batch_frames(&ChannelMessage { events: vec![], device: 0 }).unwrap().is_empty());
}

#[test]
fn batch_frames_fail_on_first_bad_event() {
    let msg = ChannelMessage { events: vec![ev(60, 144, 1), ev(200, 144, 2), ev(130, 144, 3)], device: 0 };
    assert_eq!(batch_frames(&msg), Err(DecodingFault { data1: 200 }));
}

fn drive(mut s: ServerState, events: &[ServerEvent]) -> (ServerState, Vec<ServerAction>) {
    let mut actions = vec![s.action()];
    for e in events {
        s = s.next(*e);
        actions.push(s.action());
    }
    (s, actions)
}

#[test]
fn server_serves_a_batch_in_order() {
    let (s, actions) = drive(
        ServerState::new(),
        &[
            ServerEvent::Bound,
            ServerEvent::Accepted,
            ServerEvent::HandshakeDone,
            ServerEvent::Received { frames: 3 },
            ServerEvent::Written,
            ServerEvent::Written,
            ServerEvent::Written,
            ServerEvent::Paused,
        ],
    );
    assert_eq!(s, ServerState::Receiving);
    assert_eq!(
        actions,
        vec![
            ServerAction::Bind,
            ServerAction::Accept,
            ServerAction::Handshake,
            ServerAction::Receive,
            ServerAction::Write { index: 0 },
            ServerAction::Write { index: 1 },
            ServerAction::Write { index: 2 },
            ServerAction::Pause,
            ServerAction::Receive,
        ]
    );
}

#[test]
fn write_failure_drops_connection_and_accepts_again() {
    let (s, actions) = drive(
        ServerState::Receiving,
        &[
            ServerEvent::Received { frames: 4 },
            ServerEvent::Written,
            ServerEvent::WriteFailed,
            ServerEvent::Accepted,
            ServerEvent::HandshakeDone,
        ],
    );
    assert_eq!(s, ServerState::Receiving);
    assert_eq!(actions[3], ServerAction::Accept);
    assert_eq!(actions[5], ServerAction::Receive);
}

#[test]
fn recoverable_faults_keep_the_server_running() {
    let (s, _) = drive(
        ServerState::Accepting,
        &[ServerEvent::AcceptFailed, ServerEvent::Accepted, ServerEvent::HandshakeFailed],
    );
    assert_eq!(s, ServerState::Accepting);
    assert_eq!(ServerState::Receiving.next(ServerEvent::Received { frames: 0 }), ServerState::Pausing);
}

#[test]
fn fatal_faults_stop_the_server() {
    assert_eq!(ServerState::new().next(ServerEvent::BindFailed).action(), ServerAction::Exit);
    assert_eq!(ServerState::Receiving.next(ServerEvent::Fatal), ServerState::Stopped);
    assert_eq!(ServerState::Stopped.next(ServerEvent::Bound), ServerState::Stopped);
}

#[test]
fn channel_applies_backpressure_at_capacity() {
    let (tx, _rx) = crossbeam_channel::bounded::<ChannelMessage>(CHANNEL_CAPACITY);
    for i in 0..CHANNEL_CAPACITY {
        assert!(tx.try_send(ChannelMessage { events: vec![ev(60, 144, i as u32)], device: 0 }).is_ok());
    }
    assert!(tx.try_send(ChannelMessage { events: vec![], device: 0 }).unwrap_err().is_full());
}

#[test]
fn each_batch_goes_to_exactly_one_consumer() {
    let (tx, rx) = crossbeam_channel::bounded::<ChannelMessage>(CHANNEL_CAPACITY);
    let rx2 = rx.clone();
    for i in 0..10u32 {
        tx.send(ChannelMessage { events: vec![ev(60, 144, i)], device: 0 }).unwrap();
    }
    let mut seen: Vec<u32> = Vec::new();
    for turn in 0..20 {
        let r = if turn % 2 == 0 { &rx } else { &rx2 };
        if let Ok(m) = r.try_recv() {
            seen.push(m.events[0].timestamp);
        }
    }
    assert_eq!(seen, (0..10u32).collect::<Vec<_>>());
}
