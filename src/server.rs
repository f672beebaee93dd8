use vstd::prelude::*;
use crate::frame::{frame_of, note_frame};
use crate::listener::ChannelMessage;
use crate::note::{DecodingFault, in_range, map_event_to_note, note_of, Note};

verus! {

/// The pause after a batch has been written, before the next receive, in
/// milliseconds.
pub const BATCH_PAUSE_MS: u64 = 20;

/// Maps every event of a batch to the frame of its note, in batch
/// order. Fails on the first event whose `data1` is out of range.
pub fn batch_frames(msg: &ChannelMessage) -> (r: Result<Vec<Vec<u8>>, DecodingFault>)
    ensures
        r is Ok <==> forall|i: int| 0 <= i < msg.events@.len() ==> #[trigger] in_range(msg.events@[i]),
        r matches Ok(fs) ==> fs@.len() == msg.events@.len() && forall|i: int|
            0 <= i < fs@.len() ==> (#[trigger] fs@[i])@ == frame_of(note_of(msg.events@[i])),
        r matches Err(f) ==> exists|i: int|
            0 <= i < msg.events@.len() && !in_range(#[trigger] msg.events@[i])
                && f == (DecodingFault { data1: msg.events@[i].data1 })
                && forall|j: int| 0 <= j < i ==> in_range(msg.events@[j]),
{
    let mut out: Vec<Vec<u8>> = Vec::new();
    let mut i: usize = 0;
    while i < msg.events.len()
        invariant
            i <= msg.events@.len(),
            out@.len() == i,
            forall|j: int| 0 <= j < i ==> in_range(#[trigger] msg.events@[j]),
            forall|j: int| 0 <= j < i ==> (#[trigger] out@[j])@ == frame_of(note_of(msg.events@[j])),
        decreases msg.events@.len() - i,
    {
        let note: Note = match map_event_to_note(msg.events[i]) {
            Ok(n) => n,
            Err(f) => {
                proof {
                    assert(!in_range(msg.events@[i as int]));
                }
                return Err(f);
            },
        };
        out.push(note_frame(&note));
        i = i + 1;
    }
    Ok(out)
}

/// Where the connection server stands.
#[derive(Clone, Copy, Debug, PartialEq, Eq, Structural)]
pub enum ServerState {
    /// The listening socket is to be bound.
    Binding,
    /// Waiting for the next incoming connection.
    Accepting,
    /// A connection came in; its protocol upgrade is to be done.
    Handshaking,
    /// Serving a connection: the next batch is to be received.
    Receiving,
    /// Serving a connection: frame `next` of a batch of `total` is to be written.
    Writing { next: usize, total: usize },
    /// Serving a connection: a batch has been written; the short pause is due.
    Pausing,
    /// A fatal fault stopped the server.
    Stopped,
}

/// What came of the action that the server last asked for.
#[derive(Clone, Copy, Debug, PartialEq, Eq, Structural)]
pub enum ServerEvent {
    Bound,
    BindFailed,
    Accepted,
    AcceptFailed,
    HandshakeDone,
    HandshakeFailed,
    /// A batch came off the channel and gave `frames` frames.
    Received { frames: usize },
    Written,
    WriteFailed,
    Paused,
    /// The channel closed, or a batch held an event that cannot be decoded.
    Fatal,
}

/// What the server asks its runner to do next.
#[derive(Clone, Copy, Debug, PartialEq, Eq, Structural)]
pub enum ServerAction {
    Bind,
    Accept,
    Handshake,
    Receive,
    /// Write frame `index` of the current batch, as one text message.
    Write { index: usize },
    Pause,
    /// Stop the whole process.
    Exit,
}

/// A server state is consistent: a write in progress points into its batch.
pub open spec fn state_wf(s: ServerState) -> bool {
    s matches ServerState::Writing { next, total } ==> next < total
}

/// The action that a state asks for.
pub open spec fn action_of(s: ServerState) -> ServerAction {
    match s {
        ServerState::Binding => ServerAction::Bind,
        ServerState::Accepting => ServerAction::Accept,
        ServerState::Handshaking => ServerAction::Handshake,
        ServerState::Receiving => ServerAction::Receive,
        ServerState::Writing { next, .. } => ServerAction::Write { index: next },
        ServerState::Pausing => ServerAction::Pause,
        ServerState::Stopped => ServerAction::Exit,
    }
}

/// The state after `e` came of the action of `s`. A fatal fault stops the
/// server from any state; a failed accept or handshake goes back to accepting;
/// a failed write drops the connection and goes back to accepting; an event
/// that the state does not wait for changes nothing.
pub open spec fn next_state(s: ServerState, e: ServerEvent) -> ServerState {
    match (s, e) {
        (ServerState::Stopped, _) => ServerState::Stopped,
        (_, ServerEvent::Fatal) => ServerState::Stopped,
        (ServerState::Binding, ServerEvent::Bound) => ServerState::Accepting,
        (ServerState::Binding, ServerEvent::BindFailed) => ServerState::Stopped,
        (ServerState::Accepting, ServerEvent::Accepted) => ServerState::Handshaking,
        (ServerState::Accepting, ServerEvent::AcceptFailed) => ServerState::Accepting,
        (ServerState::Handshaking, ServerEvent::HandshakeDone) => ServerState::Receiving,
        (ServerState::Handshaking, ServerEvent::HandshakeFailed) => ServerState::Accepting,
        (ServerState::Receiving, ServerEvent::Received { frames }) => if frames == 0 {
            ServerState::Pausing
        } else {
            ServerState::Writing { next: 0, total: frames }
        },
        (ServerState::Writing { next, total }, ServerEvent::Written) => if next + 1 < total {
            ServerState::Writing { next: (next + 1) as usize, total }
        } else {
            ServerState::Pausing
        },
        (ServerState::Writing { .. }, ServerEvent::WriteFailed) => ServerState::Accepting,
        (ServerState::Pausing, ServerEvent::Paused) => ServerState::Receiving,
        _ => s,
    }
}

/// The state after a run of events, from `s`.
pub open spec fn run(s: ServerState, events: Seq<ServerEvent>) -> ServerState
    decreases events.len(),
{
    if events.len() == 0 {
        s
    } else {
        next_state(run(s, events.drop_last()), events.last())
    }
}

impl ServerState {
    /// The state the server starts in.
    pub fn new() -> (r: ServerState)
        ensures
            r == ServerState::Binding,
    {
        ServerState::Binding
    }

    /// The action this state asks for.
    pub fn action(&self) -> (r: ServerAction)
        ensures
            r == action_of(*self),
    {
        match *self {
            ServerState::Binding => ServerAction::Bind,
            ServerState::Accepting => ServerAction::Accept,
            ServerState::Handshaking => ServerAction::Handshake,
            ServerState::Receiving => ServerAction::Receive,
            ServerState::Writing { next, .. } => ServerAction::Write { index: next },
            ServerState::Pausing => ServerAction::Pause,
            ServerState::Stopped => ServerAction::Exit,
        }
    }

    /// The state after `e` came of this state's action.
    pub fn next(self, e: ServerEvent) -> (r: ServerState)
        requires
            state_wf(self),
        ensures
            r == next_state(self, e),
            state_wf(r),
    {
        match (self, e) {
            (ServerState::Stopped, _) => ServerState::Stopped,
            (_, ServerEvent::Fatal) => ServerState::Stopped,
            (ServerState::Binding, ServerEvent::Bound) => ServerState::Accepting,
            (ServerState::Binding, ServerEvent::BindFailed) => ServerState::Stopped,
            (ServerState::Accepting, ServerEvent::Accepted) => ServerState::Handshaking,
            (ServerState::Accepting, ServerEvent::AcceptFailed) => ServerState::Accepting,
            (ServerState::Handshaking, ServerEvent::HandshakeDone) => ServerState::Receiving,
            (ServerState::Handshaking, ServerEvent::HandshakeFailed) => ServerState::Accepting,
            (ServerState::Receiving, ServerEvent::Received { frames }) => if frames == 0 {
                ServerState::Pausing
            } else {
                ServerState::Writing { next: 0, total: frames }
            },
            (ServerState::Writing { next, total }, ServerEvent::Written) => if next + 1 < total {
                ServerState::Writing { next: next + 1, total }
            } else {
                ServerState::Pausing
            },
            (ServerState::Writing { .. }, ServerEvent::WriteFailed) => ServerState::Accepting,
            (ServerState::Pausing, ServerEvent::Paused) => ServerState::Receiving,
            _ => self,
        }
    }
}

/// A batch of `n` frames whose writes all succeed is written in batch order,
/// one frame per write, and then the pause comes before the next receive.
pub proof fn lemma_batch_written_in_order(n: usize, k: nat)
    requires
        0 < k <= n,
    ensures
        run(ServerState::Receiving, seq![ServerEvent::Received { frames: n }] + Seq::new(
            (k - 1) as nat,
            |i: int| ServerEvent::Written,
        )) == (ServerState::Writing { next: (k - 1) as usize, total: n }),
        action_of(ServerState::Writing { next: (k - 1) as usize, total: n }) == (ServerAction::Write {
            index: (k - 1) as usize,
        }),
        next_state(ServerState::Writing { next: (n - 1) as usize, total: n }, ServerEvent::Written)
            == ServerState::Pausing,
        next_state(ServerState::Pausing, ServerEvent::Paused) == ServerState::Receiving,
    decreases k,
{
    let evs = seq![ServerEvent::Received { frames: n }] + Seq::new(
        (k - 1) as nat,
        |i: int| ServerEvent::Written,
    );
    if k == 1 {
        assert(evs.drop_last() =~= Seq::<ServerEvent>::empty());
        assert(evs.last() == ServerEvent::Received { frames: n });
        assert(run(ServerState::Receiving, evs.drop_last()) == ServerState::Receiving);
        assert(run(ServerState::Receiving, evs) == next_state(ServerState::Receiving, evs.last()));
    } else {
        lemma_batch_written_in_order(n, (k - 1) as nat);
        let prev = seq![ServerEvent::Received { frames: n }] + Seq::new(
            (k - 2) as nat,
            |i: int| ServerEvent::Written,
        );
        assert(evs.drop_last() =~= prev);
        assert(evs.last() == ServerEvent::Written);
        assert(run(ServerState::Receiving, evs) == next_state(run(ServerState::Receiving, prev), ServerEvent::Written));
    }
}

/// A failed write drops the connection: the server goes back to accepting
/// without a fatal stop, and once a new client has connected and finished its
/// handshake, it asks to receive the next batch from the channel.
pub proof fn lemma_write_failure_reconnects(s: ServerState)
    requires
        s is Writing,
        state_wf(s),
    ensures
        next_state(s, ServerEvent::WriteFailed) == ServerState::Accepting,
        action_of(next_state(s, ServerEvent::WriteFailed)) == ServerAction::Accept,
        run(s, seq![ServerEvent::WriteFailed, ServerEvent::Accepted, ServerEvent::HandshakeDone])
            == ServerState::Receiving,
        action_of(
            run(s, seq![ServerEvent::WriteFailed, ServerEvent::Accepted, ServerEvent::HandshakeDone]),
        ) == ServerAction::Receive,
{
    let evs = seq![ServerEvent::WriteFailed, ServerEvent::Accepted, ServerEvent::HandshakeDone];
    assert(evs.drop_last() =~= seq![ServerEvent::WriteFailed, ServerEvent::Accepted]);
    assert(evs.drop_last().drop_last() =~= seq![ServerEvent::WriteFailed]);
    assert(evs.drop_last().drop_last().drop_last() =~= Seq::<ServerEvent>::empty());
    assert(run(s, evs.drop_last().drop_last().drop_last()) == s);
    assert(run(s, evs.drop_last().drop_last()) == ServerState::Accepting);
    assert(run(s, evs.drop_last()) == ServerState::Handshaking);
    assert(run(s, evs) == ServerState::Receiving);
}

/// Writes only ever start on a batch just received: no step enters the first
/// write of a batch but a receive of that batch, so a new connection never
/// replays a batch that an earlier one took off the channel.
pub proof fn lemma_no_replay(s: ServerState, e: ServerEvent, n: usize)
    requires
        state_wf(s),
        next_state(s, e) == (ServerState::Writing { next: 0, total: n }),
        !(s is Writing),
    ensures
        s == ServerState::Receiving,
        e == (ServerEvent::Received { frames: n }),
{
}

/// A fault that is not fatal never stops the server: only a failed bind or a
/// fatal event does.
pub proof fn lemma_only_fatal_stops(s: ServerState, e: ServerEvent)
    requires
        s != ServerState::Stopped,
        e != ServerEvent::Fatal,
        e != ServerEvent::BindFailed,
    ensures
        next_state(s, e) != ServerState::Stopped,
{
}

} // verus!
