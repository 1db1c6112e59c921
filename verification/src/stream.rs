//! Streams multiplexed over a circuit.
//!
//! A stream is connecting until the far end confirms it, then open until either
//! end closes it. A sender may have a window of data cells outstanding; the
//! receiver opens it again with an acknowledgement for every batch.

use crate::channels;
use crate::channels::{Signalled, hand_over, new_channel, signal, signal_channel};
use crate::errors;
use crate::errors::Error;
use crate::text;
use crate::text::{append_decimal, join2};
use std::collections::HashMap;
use vstd::prelude::*;
use vstd::slice::*;

verus! {

broadcast use vstd::std_specs::hash::group_hash_axioms;

/// Data cells that may be sent on a stream before the first acknowledgement.
pub const STREAM_WINDOW_START: i32 = 500;

/// Cells by which an acknowledgement opens the window.
pub const STREAM_SENDME_INC: i32 = 50;

/// Cells after whose delivery an acknowledgement is due.
pub const STREAM_SENDME_DELIVERED: i32 = 50;

/// Bytes that may be waiting unacknowledged.
pub const STREAM_BUFFER_MAX: usize = 65_536;

/// Data cells that may be sent on a circuit before the first acknowledgement.
pub const CIRCUIT_WINDOW_START: i32 = 1000;

/// Cells by which a circuit acknowledgement opens the circuit's window.
pub const CIRCUIT_SENDME_INC: i32 = 100;

/// Cells after whose delivery a circuit acknowledgement is due.
pub const CIRCUIT_SENDME_DELIVERED: i32 = 100;

/// Why a stream ended.
#[derive(Clone, Copy, Debug, PartialEq, Eq, Structural)]
pub enum EndReason {
    /// Both ends have finished.
    Done,
    /// The target could not be reached.
    Unreachable,
    /// The exit does not serve the target.
    ExitPolicy,
    /// The circuit is gone.
    Destroyed,
    /// Nothing happened for too long.
    Timeout,
    /// Anything else.
    Internal,
}

impl EndReason {
    /// The code of the reason.
    pub open spec fn code(self) -> u8 {
        match self {
            EndReason::Done => 0,
            EndReason::Unreachable => 1,
            EndReason::ExitPolicy => 2,
            EndReason::Destroyed => 3,
            EndReason::Timeout => 4,
            EndReason::Internal => 5,
        }
    }

    /// The code of the reason, as an END cell carries it.
    pub fn to_byte(self) -> (r: u8)
        ensures
            r == self.code(),
    {
        match self {
            EndReason::Done => 0,
            EndReason::Unreachable => 1,
            EndReason::ExitPolicy => 2,
            EndReason::Destroyed => 3,
            EndReason::Timeout => 4,
            EndReason::Internal => 5,
        }
    }

    /// The reason with the code `b`; a code that no other reason has stands for
    /// `Internal`.
    pub fn from_byte(b: u8) -> (r: Self)
        ensures
            b <= 5 ==> r.code() == b,
            b > 5 ==> r == EndReason::Internal,
    {
        match b {
            0 => EndReason::Done,
            1 => EndReason::Unreachable,
            2 => EndReason::ExitPolicy,
            3 => EndReason::Destroyed,
            4 => EndReason::Timeout,
            _ => EndReason::Internal,
        }
    }
}

/// Where a stream is in its life.
#[derive(Clone, Copy, Debug, PartialEq, Eq, Structural)]
pub enum StreamState {
    /// Requested, and not yet confirmed.
    Connecting,
    /// Data flows.
    Open,
    /// No further data is accepted.
    Closed,
}

/// The name of a state.
pub open spec fn state_name(s: StreamState) -> Seq<char> {
    match s {
        StreamState::Connecting => "Connecting"@,
        StreamState::Open => "Open"@,
        StreamState::Closed => "Closed"@,
    }
}

fn state_text(s: StreamState) -> (r: &'static str)
    ensures
        r@ == state_name(s),
{
    match s {
        StreamState::Connecting => "Connecting",
        StreamState::Open => "Open",
        StreamState::Closed => "Closed",
    }
}

/// The text of an error of the stream `id`.
pub open spec fn stream_error(id: u16, what: Seq<char>) -> Seq<char> {
    "stream "@ + text::decimal(id as nat) + what
}

fn stream_error_text(id: u16, what: &str) -> (r: String)
    ensures
        r@ == stream_error(id, what@),
{
    let mut m: String = "stream ".to_owned();
    append_decimal(&mut m, id as u64);
    m.append(what);
    m
}

/// One stream.
pub struct Stream {
    pub id: u16,
    pub state: StreamState,
    /// The `host:port` that the stream was opened to.
    pub target: String,
    /// Cells that may still be sent.
    pub send_window: i32,
    /// Cells received since the last acknowledgement.
    pub delivered_since_sendme: i32,
    /// Bytes received since the last acknowledgement.
    pub inbound_buffered: usize,
    /// Where received data goes.
    pub inbound_tx: Option<tokio::sync::mpsc::Sender<Vec<u8>>>,
    /// Why the stream ended, once it has.
    pub end_reason: Option<EndReason>,
    /// Signals that the stream is open.
    pub ready_tx: Option<tokio::sync::oneshot::Sender<()>>,
}

impl Stream {
    /// The windows and counters are within their bounds.
    pub open spec fn wf(self) -> bool {
        &&& 0 <= self.send_window <= 2 * STREAM_WINDOW_START
        &&& 0 <= self.delivered_since_sendme < STREAM_SENDME_DELIVERED
        &&& self.inbound_buffered <= STREAM_BUFFER_MAX
    }

    /// Everything but the windows and the state is as in `other`.
    pub open spec fn same_stream(self, other: Stream) -> bool {
        self.id == other.id && self.target == other.target && self.end_reason == other.end_reason
    }

    /// The text with which a data cell of `n` bytes is refused, if it is refused
    /// whatever the receiver does.
    pub open spec fn data_fault(self, n: nat) -> Option<Seq<char>> {
        if self.state != StreamState::Open {
            Some(stream_error(self.id, ": DATA in state "@ + state_name(self.state)))
        } else if self.inbound_buffered + n > STREAM_BUFFER_MAX {
            Some(stream_error(self.id, ": inbound buffer full"@))
        } else {
            None
        }
    }

    /// Confirms a stream that was connecting, and signals so to whoever waits for it.
    /// Returns the signal that was given, if one was asked for.
    pub fn on_connected(&mut self) -> (r: Result<Option<Signalled>, Error>)
        ensures
            final(self).same_stream(*old(self)),
            final(self).send_window == old(self).send_window,
            final(self).delivered_since_sendme == old(self).delivered_since_sendme,
            final(self).inbound_buffered == old(self).inbound_buffered,
            final(self).inbound_tx == old(self).inbound_tx,
            if old(self).state == StreamState::Connecting {
                &&& r matches Ok(given)
                &&& given is Some == old(self).ready_tx is Some
                &&& given matches Some(s) ==> s.sender() == old(self).ready_tx->0
                &&& final(self).state == StreamState::Open
                &&& final(self).ready_tx is None
            } else {
                *final(self) == *old(self) && errors::is_handshake(
                    r,
                    stream_error(
                        old(self).id,
                        ": CONNECTED in state "@ + state_name(old(self).state),
                    ),
                )
            },
    {
        if self.state != StreamState::Connecting {
            let what: String = join2(": CONNECTED in state ", state_text(self.state));
            return Err(Error::Handshake(stream_error_text(self.id, what.as_str())));
        }
        self.state = StreamState::Open;
        match self.ready_tx.take() {
            Some(tx) => Ok(Some(signal(tx))),
            None => Ok(None),
        }
    }

    /// Takes a data cell: puts its bytes where the application reads them, if it does.
    /// Returns whether an acknowledgement is due. A cell is refused when the stream is
    /// not open, when too much is unacknowledged, or when the application does not keep
    /// up.
    pub fn on_data(&mut self, bytes: &[u8]) -> (r: Result<bool, Error>)
        requires
            old(self).wf(),
        ensures
            match old(self).data_fault(bytes@.len()) {
                Some(text) => errors::is_handshake(r, text) && *final(self) == *old(self),
                None => exists|taken: bool| #[trigger]
                    data_outcome(*old(self), bytes@.len(), taken, *final(self), r) && handed_over(
                        old(self).inbound_tx,
                        bytes@,
                        taken,
                        final(self).inbound_tx,
                    ) && (old(self).inbound_tx matches Some(tx) ==> channels::answers(tx, bytes@, taken)),
            },
            final(self).wf(),
    {
        let message: Option<Vec<u8>> = match self.message_for(bytes) {
            Ok(m) => m,
            Err(e) => return Err(e),
        };
        let taken: bool = match (self.inbound_tx.take(), message) {
            (Some(mut tx), Some(m)) => {
                let taken: bool = hand_over(&mut tx, m);
                self.inbound_tx = Some(tx);
                taken
            },
            _ => true,
        };
        assert(handed_over(old(self).inbound_tx, bytes@, taken, self.inbound_tx));
        assert(!taken ==> *self == *old(self));
        let r: Result<bool, Error> = self.account_data(bytes.len(), taken);
        assert(data_outcome(*old(self), bytes@.len(), taken, *self, r));
        r
    }

    /// What a data cell hands to the application: its bytes, unless nothing reads them.
    pub fn message_for(&self, bytes: &[u8]) -> (r: Result<Option<Vec<u8>>, Error>)
        ensures
            match self.data_fault(bytes@.len()) {
                Some(text) => errors::is_handshake(r, text),
                None => {
                    &&& r matches Ok(message)
                    &&& message is Some == self.inbound_tx is Some
                    &&& message matches Some(m) ==> m@ == bytes@
                },
            },
    {
        let n: usize = bytes.len();
        if self.state != StreamState::Open {
            let what: String = join2(": DATA in state ", state_text(self.state));
            return Err(Error::Handshake(stream_error_text(self.id, what.as_str())));
        }
        if n > STREAM_BUFFER_MAX || self.inbound_buffered > STREAM_BUFFER_MAX - n {
            return Err(Error::Handshake(stream_error_text(self.id, ": inbound buffer full")));
        }
        if self.inbound_tx.is_none() {
            return Ok(None);
        }
        Ok(Some(slice_to_vec(bytes)))
    }

    /// Accounts for a data cell of `n` bytes, which the receiver has taken or not.
    pub fn account_data(&mut self, n: usize, taken: bool) -> (r: Result<bool, Error>)
        requires
            old(self).wf(),
            old(self).data_fault(n as nat) is None,
        ensures
            data_outcome(*old(self), n as nat, taken, *final(self), r),
            final(self).inbound_tx == old(self).inbound_tx,
            final(self).wf(),
    {
        if !taken {
            return Err(Error::Handshake(stream_error_text(self.id, ": app buffer full")));
        }
        self.inbound_buffered = self.inbound_buffered + n;
        self.delivered_since_sendme = self.delivered_since_sendme + 1;
        let due: bool = self.delivered_since_sendme >= STREAM_SENDME_DELIVERED;
        if due {
            self.delivered_since_sendme = 0;
            self.inbound_buffered = 0;
        }
        Ok(due)
    }

    /// Takes an acknowledgement: opens the window, up to twice its start.
    pub fn on_sendme(&mut self)
        requires
            old(self).send_window <= i32::MAX - STREAM_SENDME_INC,
        ensures
            final(self).send_window == if old(self).send_window + STREAM_SENDME_INC > 2
                * STREAM_WINDOW_START {
                2 * STREAM_WINDOW_START
            } else {
                old(self).send_window + STREAM_SENDME_INC
            },
            final(self).same_stream(*old(self)),
            final(self).state == old(self).state,
            final(self).delivered_since_sendme == old(self).delivered_since_sendme,
            final(self).inbound_buffered == old(self).inbound_buffered,
            final(self).inbound_tx == old(self).inbound_tx,
            final(self).ready_tx == old(self).ready_tx,
            old(self).wf() ==> final(self).wf(),
    {
        self.send_window = self.send_window + STREAM_SENDME_INC;
        if self.send_window > STREAM_WINDOW_START * 2 {
            self.send_window = STREAM_WINDOW_START * 2;
        }
    }

    /// Takes one cell out of the window, to send it.
    pub fn try_consume_window(&mut self) -> (r: Result<(), Error>)
        ensures
            final(self).same_stream(*old(self)),
            final(self).state == old(self).state,
            final(self).delivered_since_sendme == old(self).delivered_since_sendme,
            final(self).inbound_buffered == old(self).inbound_buffered,
            final(self).inbound_tx == old(self).inbound_tx,
            final(self).ready_tx == old(self).ready_tx,
            if old(self).state != StreamState::Open {
                *final(self) == *old(self) && errors::is_handshake(
                    r,
                    stream_error(old(self).id, ": send in state "@ + state_name(old(self).state)),
                )
            } else if old(self).send_window <= 0 {
                *final(self) == *old(self) && errors::is_handshake(
                    r,
                    stream_error(old(self).id, ": window exhausted"@),
                )
            } else {
                r is Ok && final(self).send_window == old(self).send_window - 1
            },
            old(self).wf() ==> final(self).wf(),
    {
        if self.state != StreamState::Open {
            let what: String = join2(": send in state ", state_text(self.state));
            return Err(Error::Handshake(stream_error_text(self.id, what.as_str())));
        }
        if self.send_window <= 0 {
            return Err(Error::Handshake(stream_error_text(self.id, ": window exhausted")));
        }
        self.send_window = self.send_window - 1;
        Ok(())
    }

    /// Closes the stream. A later close replaces the reason.
    pub fn close(&mut self, reason: EndReason)
        ensures
            final(self).state == StreamState::Closed,
            final(self).end_reason == Some(reason),
            final(self).inbound_tx is None,
            final(self).id == old(self).id,
            final(self).target == old(self).target,
            final(self).send_window == old(self).send_window,
            final(self).delivered_since_sendme == old(self).delivered_since_sendme,
            final(self).inbound_buffered == old(self).inbound_buffered,
            final(self).ready_tx == old(self).ready_tx,
    {
        self.state = StreamState::Closed;
        self.end_reason = Some(reason);
        self.inbound_tx = None;
    }

    /// Whether data flows.
    pub fn is_open(&self) -> (r: bool)
        ensures
            r == (self.state == StreamState::Open),
    {
        self.state == StreamState::Open
    }
}

/// `message` went into the channel of the sender `before`, where there is one and it
/// had room: `after` is the sender then.
pub open spec fn handed_over(
    before: Option<tokio::sync::mpsc::Sender<Vec<u8>>>,
    message: Seq<u8>,
    taken: bool,
    after: Option<tokio::sync::mpsc::Sender<Vec<u8>>>,
) -> bool {
    match before {
        None => after is None && taken,
        Some(b) => {
            &&& after matches Some(a)
            &&& taken ==> channels::sent(a) == channels::sent(b).push(message)
            &&& !taken ==> a == b
            &&& forall|rx: tokio::sync::mpsc::Receiver<Vec<u8>>| #[trigger]
                channels::joined(a, rx) == channels::joined(b, rx)
        },
    }
}

/// `after` and `r` are the outcome of a data cell of `n` bytes that the receiver
/// has taken or not, the sender aside.
pub open spec fn data_outcome(
    before: Stream,
    n: nat,
    taken: bool,
    after: Stream,
    r: Result<bool, Error>,
) -> bool {
    let due = before.delivered_since_sendme + 1 >= STREAM_SENDME_DELIVERED;
    if taken {
        &&& r == Ok::<bool, Error>(due)
        &&& after.same_stream(before)
        &&& after.state == before.state
        &&& after.send_window == before.send_window
        &&& after.ready_tx == before.ready_tx
        &&& after.delivered_since_sendme == if due {
            0
        } else {
            before.delivered_since_sendme + 1
        }
        &&& after.inbound_buffered == if due {
            0
        } else {
            before.inbound_buffered + n
        }
    } else {
        after == before && errors::is_handshake(r, stream_error(before.id, ": app buffer full"@))
    }
}

/// The streams of a circuit. Stream 0 stands for the circuit itself and is never
/// allocated.
pub struct StreamMux {
    streams: HashMap<u16, Stream>,
    next_stream_id: u16,
}

/// A stream as it is when it was just made.
pub open spec fn is_new_stream(s: Stream, id: u16, target: Seq<char>, state: StreamState) -> bool {
    &&& s.id == id
    &&& s.state == state
    &&& s.target@ == target
    &&& s.send_window == STREAM_WINDOW_START
    &&& s.delivered_since_sendme == 0
    &&& s.inbound_buffered == 0
    &&& s.inbound_tx is Some
    &&& s.end_reason is None
}

/// `after` is `before` with a new stream, whose data arrives at `rx` and which signals to
/// `ready` that it opens, where that is asked for.
pub open spec fn stream_added(
    before: Map<u16, Stream>,
    after: Map<u16, Stream>,
    id: u16,
    target: Seq<char>,
    state: StreamState,
    rx: tokio::sync::mpsc::Receiver<Vec<u8>>,
    ready: Option<tokio::sync::oneshot::Receiver<()>>,
) -> bool {
    exists|s: Stream|
        after == #[trigger] before.insert(id, s) && is_new_stream(s, id, target, state)
            && channels::joined(s.inbound_tx->0, rx) && channels::sent(s.inbound_tx->0).len() == 0
            && s.ready_tx is Some == ready is Some && (ready matches Some(w) ==> channels::awaits(
            w,
            s.ready_tx->0,
        ))
}

/// `after` is `before` with the stream `id` changed as `f` changes it, with the
/// result `t`.
pub open spec fn stream_changed<F, T>(
    before: Map<u16, Stream>,
    after: Map<u16, Stream>,
    id: u16,
    f: F,
    t: T,
) -> bool where F: FnOnce(Stream) -> (Stream, T) {
    exists|s: Stream| #[trigger]
        f.ensures((before[id],), (s, t)) && after == before.insert(id, s)
}

/// The identifier that is allocated when `next` is the next one.
pub open spec fn allocated(next: u16) -> u16 {
    if next == 0 {
        1
    } else {
        next
    }
}

/// The identifier after `id`, which follows the last with 0.
pub open spec fn following(id: u16) -> u16 {
    if id == u16::MAX {
        0
    } else {
        (id + 1) as u16
    }
}

impl View for StreamMux {
    type V = Map<u16, Stream>;

    closed spec fn view(&self) -> Map<u16, Stream> {
        self.streams@
    }
}

impl StreamMux {
    /// The next identifier.
    pub closed spec fn next(self) -> u16 {
        self.next_stream_id
    }

    /// No streams; the first identifier is 1.
    pub fn new() -> (r: Self)
        ensures
            r@ == Map::<u16, Stream>::empty(),
            r.next() == 1,
    {
        StreamMux { streams: HashMap::new(), next_stream_id: 1 }
    }

    /// Allocates an identifier. Zero is passed over.
    pub fn fresh_id(&mut self) -> (r: u16)
        ensures
            r == allocated(old(self).next()),
            r != 0,
            final(self).next() == following(r),
            final(self)@ == old(self)@,
    {
        let mut id: u16 = self.next_stream_id;
        if id == 0 {
            id = 1;
        }
        self.next_stream_id = id.wrapping_add(1);
        id
    }

    /// Opens a stream to `target`. Returns its identifier, where its data arrives,
    /// and the signal that it is open. A stream that had the identifier before is
    /// replaced.
    pub fn open_stream(&mut self, target: String) -> (r: (
        u16,
        tokio::sync::mpsc::Receiver<Vec<u8>>,
        tokio::sync::oneshot::Receiver<()>,
    ))
        ensures
            r.0 == allocated(old(self).next()),
            final(self).next() == following(r.0),
            stream_added(
                old(self)@,
                final(self)@,
                r.0,
                target@,
                StreamState::Connecting,
                r.1,
                Some(r.2),
            ),
            final(self)@[r.0].inbound_tx matches Some(tx) && channels::holds_up_to(32, tx, r.1),
    {
        let id: u16 = self.fresh_id();
        let (tx, rx) = new_channel(32);
        let (ready_tx, ready_rx) = signal_channel();
        let s: Stream = Stream {
            id,
            state: StreamState::Connecting,
            target,
            send_window: STREAM_WINDOW_START,
            delivered_since_sendme: 0,
            inbound_buffered: 0,
            inbound_tx: Some(tx),
            end_reason: None,
            ready_tx: Some(ready_tx),
        };
        let ghost g = s;
        let _before: Option<Stream> = self.streams.insert(id, s);
        assert(self@ == old(self)@.insert(id, g));
        assert(stream_added(
            old(self)@,
            self@,
            id,
            target@,
            StreamState::Connecting,
            rx,
            Some(ready_rx),
        ));
        (id, rx, ready_rx)
    }

    /// Takes over a stream that the far end has opened. It is open already.
    pub fn accept_stream(&mut self, id: u16, target: String) -> (r: tokio::sync::mpsc::Receiver<
        Vec<u8>,
    >)
        ensures
            final(self).next() == old(self).next(),
            stream_added(old(self)@, final(self)@, id, target@, StreamState::Open, r, None),
            final(self)@[id].inbound_tx matches Some(tx) && channels::holds_up_to(32, tx, r),
    {
        let (tx, rx) = new_channel(32);
        let s: Stream = Stream {
            id,
            state: StreamState::Open,
            target,
            send_window: STREAM_WINDOW_START,
            delivered_since_sendme: 0,
            inbound_buffered: 0,
            inbound_tx: Some(tx),
            end_reason: None,
            ready_tx: None,
        };
        let ghost g = s;
        let _before: Option<Stream> = self.streams.insert(id, s);
        assert(self@ == old(self)@.insert(id, g));
        rx
    }

    /// Applies `f` to a stream, which it gives back changed. Nothing for an
    /// identifier without a stream.
    pub fn with_stream<F, T>(&mut self, id: u16, f: F) -> (r: Option<T>) where
        F: FnOnce(Stream) -> (Stream, T),

        requires
            old(self)@.contains_key(id) ==> f.requires((old(self)@[id],)),
        ensures
            final(self).next() == old(self).next(),
            match r {
                None => !old(self)@.contains_key(id) && final(self)@ == old(self)@,
                Some(t) => old(self)@.contains_key(id) && stream_changed(
                    old(self)@,
                    final(self)@,
                    id,
                    f,
                    t,
                ),
            },
    {
        match self.streams.remove(&id) {
            None => {
                assert(self@ =~= old(self)@);
                None
            },
            Some(before) => {
                let (s, t) = f(before);
                let ghost g = s;
                let _gone: Option<Stream> = self.streams.insert(id, s);
                assert(self@ =~= old(self)@.insert(id, g));
                assert(f.ensures((old(self)@[id],), (g, t)));
                assert(stream_changed(old(self)@, self@, id, f, t));
                Some(t)
            },
        }
    }

    /// Forgets a stream.
    pub fn remove(&mut self, id: u16)
        ensures
            final(self)@ == old(self)@.remove(id),
            final(self).next() == old(self).next(),
    {
        let _gone: Option<Stream> = self.streams.remove(&id);
        assert(self@ =~= old(self)@.remove(id));
    }

    /// The identifiers of the streams, each once.
    pub fn active_ids(&self) -> (r: Vec<u16>)
        ensures
            r@.no_duplicates(),
            r@.to_set() == self@.dom(),
    {
        let ghost keys = vstd::std_specs::iter::IteratorSpec::remaining(
            &vstd::std_specs::hash::spec_keys_iter(&self.streams),
        ).unref();
        let mut out: Vec<u16> = Vec::new();
        for k in it: self.streams.keys()
            invariant
                it.seq().unref() == keys,
                out@ == keys.take(it.index() as int),
        {
            out.push(*k);
        }
        assert(out@ =~= keys);
        out
    }

    /// The number of streams.
    pub fn len(&self) -> (r: usize)
        ensures
            r == self@.dom().len(),
    {
        self.streams.len()
    }

    /// Whether there are no streams.
    pub fn is_empty(&self) -> (r: bool)
        ensures
            r == (self@.dom().len() == 0),
    {
        self.streams.len() == 0
    }
}

impl Default for StreamMux {
    fn default() -> (r: Self)
        ensures
            r@ == Map::<u16, Stream>::empty(),
            r.next() == 1,
    {
        StreamMux::new()
    }
}

/// Those of the messages that the channel took, in order.
pub open spec fn accepted(messages: Seq<Seq<u8>>, taken: Seq<bool>) -> Seq<Seq<u8>>
    decreases messages.len(),
{
    if messages.len() == 0 {
        Seq::empty()
    } else {
        let before = accepted(messages.drop_last(), taken.drop_last());
        if taken.last() {
            before.push(messages.last())
        } else {
            before
        }
    }
}

/// Data reaches the application in order: however many cells arrive, the channel from which
/// the application reads has taken the bytes of those that were not refused, one behind the
/// other, and nothing else. `senders` is the stream's sender before each cell and at the end.
pub proof fn law_data_arrives_in_order(
    senders: Seq<tokio::sync::mpsc::Sender<Vec<u8>>>,
    messages: Seq<Seq<u8>>,
    taken: Seq<bool>,
    rx: tokio::sync::mpsc::Receiver<Vec<u8>>,
)
    requires
        senders.len() == messages.len() + 1,
        taken.len() == messages.len(),
        channels::joined(senders[0], rx),
        forall|i: int|
            0 <= i < messages.len() ==> handed_over(
                Some(#[trigger] senders[i]),
                messages[i],
                taken[i],
                Some(senders[i + 1]),
            ),
    ensures
        channels::sent(senders.last()) == channels::sent(senders[0]) + accepted(messages, taken),
        channels::joined(senders.last(), rx),
    decreases messages.len(),
{
    if messages.len() == 0 {
        assert(channels::sent(senders[0]) + accepted(messages, taken) =~= channels::sent(
            senders[0],
        ));
    } else {
        let n = messages.len() - 1;
        let (s, m, t) = (senders.drop_last(), messages.drop_last(), taken.drop_last());
        assert forall|i: int| 0 <= i < m.len() implies handed_over(
            Some(#[trigger] s[i]),
            m[i],
            t[i],
            Some(s[i + 1]),
        ) by {
            assert(handed_over(Some(senders[i]), messages[i], taken[i], Some(senders[i + 1])));
        }
        law_data_arrives_in_order(s, m, t, rx);
        assert(handed_over(Some(senders[n]), messages[n], taken[n], Some(senders[n + 1])));
        assert(channels::joined(senders[n + 1], rx) == channels::joined(senders[n], rx));
        assert(channels::sent(senders.last()) =~= channels::sent(senders[0]) + accepted(
            messages,
            taken,
        ));
    }
}

/// Identifiers are allocated in ascending order until they run out, and 0 never is.
pub proof fn law_identifiers_ascend(next: u16)
    requires
        next < u16::MAX,
    ensures
        allocated(next) != 0,
        allocated(following(allocated(next))) > allocated(next),
{
}

/// A new stream is within its bounds; data, acknowledgements and sending keep it
/// there.
pub proof fn law_new_streams_are_within_bounds(
    s: Stream,
    id: u16,
    target: Seq<char>,
    state: StreamState,
)
    requires
        is_new_stream(s, id, target, state),
    ensures
        s.wf(),
{
}

/// The reason of an end survives the wire, and any byte that is none of theirs reads as an
/// internal one.
pub proof fn law_end_reasons_survive_the_wire(reason: EndReason, b: u8, back: EndReason, other: u8, read: EndReason)
    requires
        call_ensures(EndReason::to_byte, (reason,), b),
        call_ensures(EndReason::from_byte, (b,), back),
        call_ensures(EndReason::from_byte, (other,), read),
    ensures
        back == reason,
        b <= 5,
        other > 5 ==> read is Internal,
{
}

/// A stream that waits for its confirmation is open after it, and whoever waited is told,
/// with the signal that was kept for them; one in any other state refuses it and stays as
/// it was.
pub proof fn law_a_confirmation_opens_the_stream(before: Stream, after: Stream, r: Result<Option<Signalled>, Error>, open: bool)
    requires
        exists|s: &mut Stream|
            *s == before && *final(s) == after && #[trigger] call_ensures(Stream::on_connected, (s,), r),
        call_ensures(Stream::is_open, (&after,), open),
    ensures
        r is Ok <==> before.state is Connecting,
        r is Ok ==> open && after.ready_tx is None,
        r is Ok && before.ready_tx is Some ==> r->Ok_0 is Some && r->Ok_0->0.sender() == before.ready_tx->0,
        r is Err ==> after == before,
        after.send_window == before.send_window,
{
}

/// Data reaches the application in the channel that the stream was opened with: what the
/// channel takes is counted, what it does not take is refused and counts for nothing. It is
/// refused before that only where the stream is not open or holds too much.
pub proof fn law_data_goes_to_the_application(
    before: Stream,
    after: Stream,
    bytes: &[u8],
    r: Result<bool, Error>,
    tx: tokio::sync::mpsc::Sender<Vec<u8>>,
)
    requires
        before.wf(),
        before.inbound_tx == Some(tx),
        exists|s: &mut Stream|
            *s == before && *final(s) == after && #[trigger] call_ensures(Stream::on_data, (s, bytes), r),
    ensures
        !(before.state is Open) || before.inbound_buffered + bytes@.len() > 65_536 ==> r is Err && after == before,
        before.state is Open && before.inbound_buffered + bytes@.len() <= 65_536 ==> channels::answers(
            tx,
            bytes@,
            r is Ok,
        ),
        r is Ok ==> after.inbound_tx is Some && channels::sent(after.inbound_tx->0) == channels::sent(tx).push(
            bytes@,
        ),
        r is Err ==> after == before,
        r is Ok ==> (r->Ok_0 <==> before.delivered_since_sendme == 49),
        r is Ok && !r->Ok_0 ==> after.delivered_since_sendme == before.delivered_since_sendme + 1
            && after.inbound_buffered == before.inbound_buffered + bytes@.len(),
        r is Ok && r->Ok_0 ==> after.delivered_since_sendme == 0 && after.inbound_buffered == 0,
{
}

/// Every fiftieth piece of data asks for an acknowledgement, and an acknowledgement gives
/// the sender exactly those fifty back, up to twice the window it began with.
pub proof fn law_an_acknowledgement_gives_fifty_back(
    s: Stream,
    acked: Stream,
    spent: Stream,
    r: Result<(), Error>,
)
    requires
        s.wf(),
        exists|x: &mut Stream|
            *x == s && *final(x) == acked && #[trigger] call_ensures(Stream::on_sendme, (x,), ()),
        exists|x: &mut Stream|
            *x == s && *final(x) == spent && #[trigger] call_ensures(Stream::try_consume_window, (x,), r),
    ensures
        s.send_window <= 950 ==> acked.send_window == s.send_window + 50,
        s.send_window > 950 ==> acked.send_window == 1000,
        r is Ok <==> s.state is Open && s.send_window > 0,
        r is Ok ==> spent.send_window == s.send_window - 1,
        r is Err ==> spent == s,
        acked.state == s.state && spent.state == s.state,
{
}

/// A closed stream is not open, sends nothing and takes nothing, and knows why it ended.
pub proof fn law_a_closed_stream_stays_quiet(
    s: Stream,
    closed: Stream,
    reason: EndReason,
    open: bool,
    after: Stream,
    sent: Result<(), Error>,
    later: Stream,
    bytes: &[u8],
    taken: Result<bool, Error>,
)
    requires
        exists|x: &mut Stream|
            *x == s && *final(x) == closed && #[trigger] call_ensures(Stream::close, (x, reason), ()),
        call_ensures(Stream::is_open, (&closed,), open),
        exists|x: &mut Stream|
            *x == closed && *final(x) == after && #[trigger] call_ensures(Stream::try_consume_window, (x,), sent),
        exists|x: &mut Stream|
            *x == closed && *final(x) == later && #[trigger] call_ensures(Stream::on_data, (x, bytes), taken),
    ensures
        !open,
        closed.end_reason == Some(reason),
        sent is Err && taken is Err,
        after == closed && later == closed,
{
}

/// A stream that was opened is there, waiting, under the number that was given out; one
/// that was accepted is there, open, under the number that it came with. Both start with
/// five hundred cells to send, and taking a stream away takes only that stream.
pub proof fn law_streams_are_there_until_removed(
    before: StreamMux,
    opened: StreamMux,
    target: String,
    r: (u16, tokio::sync::mpsc::Receiver<Vec<u8>>, tokio::sync::oneshot::Receiver<()>),
    accepted: StreamMux,
    id: u16,
    rx: tokio::sync::mpsc::Receiver<Vec<u8>>,
    gone: StreamMux,
    other: u16,
)
    requires
        exists|m: &mut StreamMux|
            *m == before && *final(m) == opened && #[trigger] call_ensures(StreamMux::open_stream, (m, target), r),
        exists|m: &mut StreamMux|
            *m == before && *final(m) == accepted && #[trigger] call_ensures(
                StreamMux::accept_stream,
                (m, id, target),
                rx,
            ),
        exists|m: &mut StreamMux|
            *m == accepted && *final(m) == gone && #[trigger] call_ensures(StreamMux::remove, (m, id), ()),
        other != id,
        other != r.0,
    ensures
        r.0 != 0,
        opened@.contains_key(r.0) && opened@[r.0].state is Connecting && opened@[r.0].target@ == target@
            && opened@[r.0].send_window == 500 && opened@[r.0].id == r.0,
        accepted@.contains_key(id) && accepted@[id].state is Open && accepted@[id].target@ == target@
            && accepted@[id].send_window == 500 && accepted@[id].id == id,
        !gone@.contains_key(id),
        opened@.contains_key(other) == before@.contains_key(other),
        accepted@.contains_key(other) == before@.contains_key(other),
        gone@.contains_key(other) == before@.contains_key(other),
        before@.contains_key(other) ==> opened@[other] == before@[other] && gone@[other] == before@[other],
{
}

/// Numbers are given out in turn, and zero, which stands for the circuit, is left out.
pub proof fn law_numbers_are_given_in_turn(a: StreamMux, b: StreamMux, c: StreamMux, first: u16, second: u16)
    requires
        exists|m: &mut StreamMux|
            *m == a && *final(m) == b && #[trigger] call_ensures(StreamMux::fresh_id, (m,), first),
        exists|m: &mut StreamMux|
            *m == b && *final(m) == c && #[trigger] call_ensures(StreamMux::fresh_id, (m,), second),
    ensures
        first != 0,
        second == if first == 65_535 {
            1
        } else {
            first + 1
        },
        b@ == a@,
{
}

/// What a stream says when it refuses: its number, and what came at the wrong time or what
/// is full.
pub proof fn law_what_a_stream_says(
    s: Stream,
    a: Stream,
    connected: Result<Option<Signalled>, Error>,
    b: Stream,
    sent: Result<(), Error>,
    c: Stream,
    bytes: &[u8],
    data: Result<bool, Error>,
)
    requires
        s.wf(),
        exists|x: &mut Stream|
            *x == s && *final(x) == a && #[trigger] call_ensures(Stream::on_connected, (x,), connected),
        exists|x: &mut Stream|
            *x == s && *final(x) == b && #[trigger] call_ensures(Stream::try_consume_window, (x,), sent),
        exists|x: &mut Stream|
            *x == s && *final(x) == c && #[trigger] call_ensures(Stream::on_data, (x, bytes), data),
    ensures
        ({
            let who = "stream "@ + text::decimal(s.id as nat);
            &&& s.state is Closed ==> errors::is_handshake(sent, who + (": send in state "@ + "Closed"@))
            &&& s.state is Connecting ==> errors::is_handshake(sent, who + (": send in state "@ + "Connecting"@))
            &&& s.state is Open ==> errors::is_handshake(connected, who + (": CONNECTED in state "@ + "Open"@))
            &&& s.state is Closed ==> errors::is_handshake(connected, who + (": CONNECTED in state "@ + "Closed"@))
            &&& s.state is Closed ==> errors::is_handshake(data, who + (": DATA in state "@ + "Closed"@))
            &&& s.state is Connecting ==> errors::is_handshake(data, who + (": DATA in state "@ + "Connecting"@))
            &&& s.state is Open && s.send_window == 0 ==> errors::is_handshake(sent, who + ": window exhausted"@)
            &&& s.state is Open && s.inbound_buffered + bytes@.len() > 65_536 ==> errors::is_handshake(
                data,
                who + ": inbound buffer full"@,
            )
            &&& s.state is Open && s.inbound_buffered + bytes@.len() <= 65_536 && data is Err ==> errors::is_handshake(
                data,
                who + ": app buffer full"@,
            )
        }),
{
}

/// Data for a stream is handed to whoever reads it as it came, and to nobody where nobody
/// reads; a stream is changed by what is done to it, and only it.
pub proof fn law_data_is_handed_on_as_it_came(s: Stream, bytes: &[u8], r: Result<Option<Vec<u8>>, Error>)
    requires
        call_ensures(Stream::message_for, (&s, bytes), r),
    ensures
        r is Ok <==> s.state is Open && s.inbound_buffered + bytes@.len() <= 65_536,
        r is Ok ==> (r->Ok_0 is Some <==> s.inbound_tx is Some),
        r is Ok && r->Ok_0 is Some ==> r->Ok_0->0@ == bytes@,
{
}

/// What was taken counts towards the next acknowledgement, what was not counts for nothing.
pub proof fn law_what_was_taken_counts(s: Stream, after: Stream, n: usize, taken: bool, r: Result<bool, Error>)
    requires
        s.wf(),
        s.state is Open,
        s.inbound_buffered + n <= 65_536,
        exists|x: &mut Stream|
            *x == s && *final(x) == after && #[trigger] call_ensures(Stream::account_data, (x, n, taken), r),
    ensures
        r is Ok <==> taken,
        !taken ==> after == s,
        taken && s.delivered_since_sendme < 49 ==> r == Ok::<bool, Error>(false) && after.delivered_since_sendme
            == s.delivered_since_sendme + 1,
        taken && s.delivered_since_sendme == 49 ==> r == Ok::<bool, Error>(true) && after.delivered_since_sendme == 0,
{
}

/// The streams that are there are listed, each once, and counted.
pub proof fn law_every_stream_is_listed(m: StreamMux, ids: Vec<u16>, n: usize, empty: bool, id: u16)
    requires
        call_ensures(StreamMux::active_ids, (&m,), ids),
        call_ensures(StreamMux::len, (&m,), n),
        call_ensures(StreamMux::is_empty, (&m,), empty),
    ensures
        ids@.contains(id) <==> m@.contains_key(id),
        ids@.len() == n,
        empty <==> n == 0,
{
    if ids@.contains(id) {
        assert(ids@.to_set().contains(id));
    }
    if m@.contains_key(id) {
        assert(ids@.to_set().contains(id));
    }
    ids@.unique_seq_to_set();
}

} // verus!
