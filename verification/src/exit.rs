//! What a relay at the end of a circuit does for a stream: it opens a connection,
//! or sends back filler for a bandwidth measurement.

use crate::bytes::{append, copy_range};
use crate::stream::EndReason;
use crate::text;
use crate::text::{chars_of, parse_long_number, str_starts_with, utf8_checked};
use vstd::prelude::*;
use vstd::string::*;
use vstd::utf8::*;

verus! {

/// The most that one bandwidth measurement may ask for, in bytes.
pub const MAX_BW_TEST_BYTES: usize = 4_194_304;

/// How many seconds a connection may take to open.
pub const EXIT_CONNECT_SECS: u64 = 15;

/// How many milliseconds to wait before looking at a closed window again.
pub const WINDOW_POLL_MILLIS: u64 = 10;

/// What a relay does next for a stream that a client opens.
#[derive(Debug)]
pub enum ExitStep {
    /// End the stream.
    End(EndReason),
    /// Send back so many bytes of filler.
    Measure(usize),
    /// Ask the exit policy about the target.
    CheckPolicy(String),
    /// Connect to the target.
    Dial(String),
    /// Confirm the stream and carry its data.
    Carry(String),
}

/// What became of the connection to a target.
#[derive(Debug)]
pub enum DialOutcome {
    /// It stands; the exit policy may reject the address that the target resolved to.
    Connected { rejected: bool },
    /// It was refused or the target is unknown.
    Failed,
    /// It took longer than [`EXIT_CONNECT_SECS`].
    TimedOut,
}

/// Where the first zero byte stands, the length of `b` when there is none.
pub open spec fn zero_at(b: Seq<u8>) -> int
    decreases b.len(),
{
    if b.len() == 0 || b[0] == 0 {
        0
    } else {
        1 + zero_at(b.skip(1))
    }
}

/// The target of a request, up to its zero byte.
pub open spec fn target_bytes(data: Seq<u8>) -> Seq<u8> {
    data.take(zero_at(data))
}

/// How many bytes the text behind `bw-test:` asks for: none when it is no number.
pub open spec fn measured(s: Seq<char>) -> int {
    if text::number_text(s, usize::MAX + 1) {
        if text::number_value(s) > MAX_BW_TEST_BYTES {
            MAX_BW_TEST_BYTES as int
        } else {
            text::number_value(s)
        }
    } else {
        0
    }
}

/// `r` is the first step for a stream opened with `data`.
pub open spec fn exit_begins(r: ExitStep, data: Seq<u8>) -> bool {
    let b = target_bytes(data);
    if !valid_utf8(b) {
        r == ExitStep::End(EndReason::Internal)
    } else {
        let t = decode_utf8(b);
        if text::starts_with(t, "bw-test:"@) {
            r matches ExitStep::Measure(n) && n == measured(t.skip("bw-test:"@.len() as int))
        } else {
            r matches ExitStep::CheckPolicy(s) && s@ == t
        }
    }
}

fn find_zero(b: &[u8]) -> (r: usize)
    ensures
        r == zero_at(b@),
        r <= b@.len(),
        forall|i: int| 0 <= i < r ==> b@[i] != 0,
        r < b@.len() ==> b@[r as int] == 0,
{
    let mut i: usize = 0;
    assert(b@.skip(0) =~= b@);
    while i < b.len() && b[i] != 0
        invariant
            i <= b@.len(),
            zero_at(b@) == i + zero_at(b@.skip(i as int)),
            forall|j: int| 0 <= j < i ==> b@[j] != 0,
        decreases b@.len() - i,
    {
        assert(b@.skip(i as int)[0] == b@[i as int]);
        assert(b@.skip(i as int).skip(1) =~= b@.skip(i + 1));
        i += 1;
    }
    if i < b.len() {
        assert(b@.skip(i as int)[0] == b@[i as int]);
    }
    i
}

fn parse_measure(v: &[char], from: usize) -> (r: usize)
    requires
        from <= v@.len(),
    ensures
        r == measured(v@.skip(from as int)),
{
    assert(v@.subrange(from as int, v@.len() as int) =~= v@.skip(from as int));
    match parse_long_number(v, from, v.len(), usize::MAX as u64) {
        Some(n) => {
            if n > MAX_BW_TEST_BYTES as u64 {
                MAX_BW_TEST_BYTES
            } else {
                n as usize
            }
        },
        None => 0,
    }
}

/// The first step for a stream that a client opens with `data`: a target in UTF-8
/// that ends with a zero byte.
pub fn exit_begin(data: &[u8]) -> (r: ExitStep)
    ensures
        exit_begins(r, data@),
{
    let end: usize = find_zero(data);
    let b: Vec<u8> = copy_range(data, 0, end);
    assert(b@ =~= target_bytes(data@));
    let target: String = match utf8_checked(&b) {
        Some(t) => t,
        None => return ExitStep::End(EndReason::Internal),
    };
    if str_starts_with(target.as_str(), "bw-test:") {
        let v: Vec<char> = chars_of(target.as_str());
        let n: usize = "bw-test:".unicode_len();
        return ExitStep::Measure(parse_measure(&v, n));
    }
    ExitStep::CheckPolicy(target)
}

/// The step after the exit policy was asked about the target.
pub fn exit_policy_says(target: String, rejected: bool) -> (r: ExitStep)
    ensures
        r == if rejected {
            ExitStep::End(EndReason::ExitPolicy)
        } else {
            ExitStep::Dial(target)
        },
{
    if rejected {
        ExitStep::End(EndReason::ExitPolicy)
    } else {
        ExitStep::Dial(target)
    }
}

/// The step after the connection was tried.
pub fn exit_dialled(target: String, outcome: DialOutcome) -> (r: ExitStep)
    ensures
        r == match outcome {
            DialOutcome::Connected { rejected } => if rejected {
                ExitStep::End(EndReason::ExitPolicy)
            } else {
                ExitStep::Carry(target)
            },
            DialOutcome::Failed => ExitStep::End(EndReason::Unreachable),
            DialOutcome::TimedOut => ExitStep::End(EndReason::Timeout),
        },
{
    match outcome {
        DialOutcome::Connected { rejected } => if rejected {
            ExitStep::End(EndReason::ExitPolicy)
        } else {
            ExitStep::Carry(target)
        },
        DialOutcome::Failed => ExitStep::End(EndReason::Unreachable),
        DialOutcome::TimedOut => ExitStep::End(EndReason::Timeout),
    }
}

/// What a read from an open connection gave.
#[derive(Debug)]
pub enum ReadOutcome {
    /// These bytes; none at the end.
    Bytes(Vec<u8>),
    /// A failure.
    Failed,
}

/// What a relay sends to the client after a read.
#[derive(Debug)]
pub enum PumpStep {
    /// A data cell.
    Data(Vec<u8>),
    /// The end of the stream.
    End(EndReason),
}

/// What to send to the client after a read from the connection.
pub fn exit_read(outcome: ReadOutcome) -> (r: PumpStep)
    ensures
        r == match outcome {
            ReadOutcome::Bytes(b) => if b@.len() == 0 {
                PumpStep::End(EndReason::Done)
            } else {
                PumpStep::Data(b)
            },
            ReadOutcome::Failed => PumpStep::End(EndReason::Unreachable),
        },
{
    match outcome {
        ReadOutcome::Bytes(b) => if b.len() == 0 {
            PumpStep::End(EndReason::Done)
        } else {
            PumpStep::Data(b)
        },
        ReadOutcome::Failed => PumpStep::End(EndReason::Unreachable),
    }
}

/// What a circuit says when a cell is to be charged to its window.
#[derive(Debug, Clone, Copy, PartialEq, Eq, Structural)]
pub enum Window {
    /// The cell was charged.
    Charged,
    /// The window is closed.
    Closed,
    /// The circuit is gone.
    Gone,
}

/// What to do with a cell.
#[derive(Debug, Clone, Copy, PartialEq, Eq, Structural)]
pub enum WindowStep {
    /// Send it.
    Send,
    /// Try again after so many milliseconds.
    Wait(u64),
    /// Give up.
    Stop,
}

/// What to do with a cell after it was to be charged to the circuit's window.
pub fn on_window(w: Window) -> (r: WindowStep)
    ensures
        r == match w {
            Window::Charged => WindowStep::Send,
            Window::Closed => WindowStep::Wait(WINDOW_POLL_MILLIS),
            Window::Gone => WindowStep::Stop,
        },
{
    match w {
        Window::Charged => WindowStep::Send,
        Window::Closed => WindowStep::Wait(WINDOW_POLL_MILLIS),
        Window::Gone => WindowStep::Stop,
    }
}

/// The data of the cell that opens a stream to `target`.
pub open spec fn begin_bytes(target: Seq<char>) -> Seq<u8> {
    encode_utf8(target).push(0)
}

/// The data of the cell that opens a stream to `target`.
pub fn begin_data(target: &str) -> (r: Vec<u8>)
    ensures
        r@ == begin_bytes(target@),
{
    let mut r: Vec<u8> = Vec::new();
    append(&mut r, target.as_bytes());
    r.push(0);
    assert(r@ =~= begin_bytes(target@));
    r
}

proof fn lemma_zero_at(b: Seq<u8>, n: int)
    requires
        0 <= n <= b.len(),
        forall|i: int| 0 <= i < n ==> b[i] != 0,
        n < b.len() ==> b[n] == 0,
    ensures
        zero_at(b) == n,
    decreases n,
{
    if n > 0 {
        let t = b.skip(1);
        assert forall|i: int| 0 <= i < n - 1 implies t[i] != 0 by {
            assert(t[i] == b[i + 1]);
        }
        lemma_zero_at(t, n - 1);
    }
}

/// The exit reads the target that the client asked for, whatever pads the cell.
/// A target holds no zero character.
pub proof fn law_the_exit_reads_the_target(r: ExitStep, target: Seq<char>, padding: Seq<u8>)
    requires
        forall|i: int| 0 <= i < target.len() ==> #[trigger] target[i] != 0u8 as char,
        !text::starts_with(target, "bw-test:"@),
        exit_begins(r, begin_bytes(target) + padding),
    ensures
        r matches ExitStep::CheckPolicy(s) && s@ == target,
{
    let b = encode_utf8(target);
    let data = begin_bytes(target) + padding;
    encode_utf8_valid_utf8(target);
    encode_utf8_decode_utf8(target);
    text::lemma_ascii_bytes(b, 0);
    assert forall|i: int| 0 <= i < b.len() implies data[i] != 0 by {
        assert(data[i] == b[i]);
    }
    lemma_zero_at(data, b.len() as int);
    assert(target_bytes(data) =~= b);
}

/// One step of the generator behind the filler.
pub open spec fn filler_step(s: u64) -> u64 {
    let a = s ^ (s << 13u64);
    let b = a ^ (a >> 7u64);
    b ^ (b << 17u64)
}

/// The generator after `n` steps.
pub open spec fn filler_after(s: u64, n: nat) -> u64
    decreases n,
{
    if n == 0 {
        s
    } else {
        filler_step(filler_after(s, (n - 1) as nat))
    }
}

/// `n` bytes of filler: the low byte of the generator after each step.
pub open spec fn filler(s: u64, n: nat) -> Seq<u8> {
    Seq::new(n, |i: int| filler_after(s, (i + 1) as nat) as u8)
}

/// What the generator starts from, for a stream of a circuit at a time.
pub open spec fn filler_seed(stream_id: u16, cid: u32, nanos: u64) -> u64 {
    let a = (stream_id * 0x9E37_79B9_7F4A_7C15) % 0x1_0000_0000_0000_0000;
    let b = (cid * 0xBF58_476D_1CE4_E5B9) % 0x1_0000_0000_0000_0000;
    let s = (a as u64) ^ (b as u64) ^ nanos;
    if s == 0 {
        1
    } else {
        s
    }
}

/// A bandwidth measurement in progress.
#[derive(Debug)]
pub struct BwTest {
    /// The generator.
    pub state: u64,
    /// How many bytes are still to be sent.
    pub left: usize,
}

impl BwTest {
    /// A measurement of `bytes` bytes over a stream.
    pub fn new(stream_id: u16, cid: u32, nanos: u64, bytes: usize) -> (r: Self)
        ensures
            r.state == filler_seed(stream_id, cid, nanos),
            r.left == bytes,
    {
        let a: u64 = (stream_id as u64).wrapping_mul(0x9E37_79B9_7F4A_7C15);
        let b: u64 = (cid as u64).wrapping_mul(0xBF58_476D_1CE4_E5B9);
        let s: u64 = a ^ b ^ nanos;
        BwTest {
            state: if s == 0 {
                1
            } else {
                s
            },
            left: bytes,
        }
    }

    /// The data of the next cell, of at most `max` bytes; nothing when all is sent.
    pub fn next_chunk(&mut self, max: usize) -> (r: Option<Vec<u8>>)
        requires
            max > 0,
        ensures
            match r {
                None => old(self).left == 0 && *final(self) == *old(self),
                Some(b) => {
                    let n = if old(self).left < max {
                        old(self).left
                    } else {
                        max
                    };
                    &&& old(self).left > 0
                    &&& b@ == filler(old(self).state, n as nat)
                    &&& final(self).left == old(self).left - n
                    &&& final(self).state == filler_after(old(self).state, n as nat)
                },
            },
    {
        if self.left == 0 {
            return None;
        }
        let n: usize = if self.left < max {
            self.left
        } else {
            max
        };
        let ghost s0 = self.state;
        let mut state: u64 = self.state;
        let mut b: Vec<u8> = Vec::new();
        let mut i: usize = 0;
        while i < n
            invariant
                i <= n,
                state == filler_after(s0, i as nat),
                b@ =~= filler(s0, i as nat),
            decreases n - i,
        {
            state = state ^ (state << 13u64);
            state = state ^ (state >> 7u64);
            state = state ^ (state << 17u64);
            b.push(#[verifier::truncate] (state as u8));
            i += 1;
        }
        self.state = state;
        self.left = self.left - n;
        Some(b)
    }
}

/// The filler does not depend on how it is cut into cells.
pub proof fn law_filler_is_one_stream(s: u64, a: nat, b: nat)
    ensures
        filler(s, a + b) == filler(s, a) + filler(filler_after(s, a), b),
        filler_after(s, a + b) == filler_after(filler_after(s, a), b),
{
    lemma_filler_after(s, a, b);
    let whole = filler(s, a + b);
    let parts = filler(s, a) + filler(filler_after(s, a), b);
    assert forall|i: int| 0 <= i < whole.len() implies whole[i] == parts[i] by {
        if i >= a {
            lemma_filler_after(s, a, (i - a + 1) as nat);
        }
    }
    assert(whole =~= parts);
}

proof fn lemma_filler_after(s: u64, a: nat, b: nat)
    ensures
        filler_after(s, a + b) == filler_after(filler_after(s, a), b),
    decreases b,
{
    if b > 0 {
        lemma_filler_after(s, a, (b - 1) as nat);
    }
}

/// A measurement never sends more than its cap.
pub proof fn law_measurements_are_capped(s: Seq<char>)
    ensures
        measured(s) <= MAX_BW_TEST_BYTES,
{
}

/// Whoever asks an exit for an address that is no measurement has its policy asked about
/// exactly that address; what is no text ends the stream.
pub proof fn law_the_exit_is_asked_for_the_address(
    target: &str,
    data: Vec<u8>,
    padding: Seq<u8>,
    b: &[u8],
    r: ExitStep,
)
    requires
        forall|i: int| 0 <= i < target@.len() ==> #[trigger] target@[i] != 0u8 as char,
        !text::starts_with(target@, "bw-test:"@),
        call_ensures(begin_data, (target,), data),
        b@ == data@ + padding,
        call_ensures(exit_begin, (b,), r),
    ensures
        r matches ExitStep::CheckPolicy(s) && s@ == target@,
{
    law_the_exit_reads_the_target(r, target@, padding);
}

/// An exit dials exactly what its policy allows, and carries the stream exactly where it
/// was reached at an address that the policy allows too. Every other outcome ends the
/// stream, with the reason that tells which.
pub proof fn law_the_exit_dials_what_its_policy_allows(
    target: String,
    rejected: bool,
    asked: ExitStep,
    outcome: DialOutcome,
    dialled: ExitStep,
)
    requires
        call_ensures(exit_policy_says, (target, rejected), asked),
        call_ensures(exit_dialled, (target, outcome), dialled),
    ensures
        !rejected ==> (asked matches ExitStep::Dial(t) && t@ == target@),
        rejected ==> asked == ExitStep::End(EndReason::ExitPolicy),
        dialled is Carry <==> (outcome matches DialOutcome::Connected { rejected } && !rejected),
        dialled matches ExitStep::Carry(t) ==> t@ == target@,
        (outcome matches DialOutcome::Connected { rejected } && rejected) ==> dialled == ExitStep::End(
            EndReason::ExitPolicy,
        ),
        outcome is Failed ==> dialled == ExitStep::End(EndReason::Unreachable),
        outcome is TimedOut ==> dialled == ExitStep::End(EndReason::Timeout),
{
}

/// What an exit reads goes to the client byte for byte; the end of it ends the stream as
/// done, and a failure as unreachable.
pub proof fn law_the_exit_sends_what_it_reads(b: Vec<u8>, r: PumpStep, failed: PumpStep)
    requires
        call_ensures(exit_read, (ReadOutcome::Bytes(b),), r),
        call_ensures(exit_read, (ReadOutcome::Failed,), failed),
    ensures
        b@.len() > 0 ==> (r matches PumpStep::Data(d) && d@ == b@),
        b@.len() == 0 ==> r == PumpStep::End(EndReason::Done),
        failed == PumpStep::End(EndReason::Unreachable),
{
}

/// A cell is sent exactly where the window was charged for it; a closed window is looked
/// at again a hundred times a second, and a stream that is gone is left.
pub proof fn law_cells_are_sent_through_open_windows(w: Window, r: WindowStep)
    requires
        call_ensures(on_window, (w,), r),
    ensures
        r is Send <==> w is Charged,
        r is Wait <==> w is Closed,
        r is Wait ==> r->Wait_0 == 10,
        r is Stop <==> w is Gone,
{
}

/// A measurement sends as many bytes as were asked for, in pieces of at most `max`: each
/// piece is as long as it can be, and what is left goes down by it until nothing is.
pub proof fn law_a_measurement_sends_what_was_asked(
    stream_id: u16,
    cid: u32,
    nanos: u64,
    bytes: usize,
    t: BwTest,
    after: BwTest,
    max: usize,
    r: Option<Vec<u8>>,
)
    requires
        max > 0,
        call_ensures(BwTest::new, (stream_id, cid, nanos, bytes), t),
        exists|x: &mut BwTest|
            *x == t && *final(x) == after && #[trigger] call_ensures(BwTest::next_chunk, (x, max), r),
    ensures
        t.left == bytes,
        t.state != 0,
        r is Some <==> bytes > 0,
        r is Some ==> r->0@.len() + after.left == bytes && r->0@.len() <= max,
        r is Some && after.left > 0 ==> r->0@.len() == max,
{
}

/// A measurement of so many bytes is made for as many, and for four mebibytes at most.
pub proof fn law_a_measurement_is_as_long_as_asked(n: u64, target: &str, data: Vec<u8>, b: &[u8], r: ExitStep)
    requires
        n <= usize::MAX,
        target@ == "bw-test:"@ + text::decimal(n as nat),
        call_ensures(begin_data, (target,), data),
        b@ == data@,
        call_ensures(exit_begin, (b,), r),
    ensures
        n <= 4 * 1024 * 1024 ==> r == ExitStep::Measure(n as usize),
        n > 4 * 1024 * 1024 ==> r == ExitStep::Measure(4_194_304),
{
    reveal_strlit("bw-test:");
    let d = text::decimal(n as nat);
    let t = target@;
    text::lemma_decimal_value(n as nat);
    assert forall|i: int| 0 <= i < t.len() implies #[trigger] t[i] != 0u8 as char by {
        if i >= 8 {
            assert(t[i] == d[i - 8]);
        }
    }
    let e = encode_utf8(t);
    encode_utf8_valid_utf8(t);
    encode_utf8_decode_utf8(t);
    text::lemma_ascii_bytes(e, 0);
    assert forall|i: int| 0 <= i < e.len() implies b@[i] != 0 by {
        assert(b@[i] == e[i]);
    }
    lemma_zero_at(b@, e.len() as int);
    assert(target_bytes(b@) =~= e);
    assert(t.take(8) =~= "bw-test:"@);
    assert(t.skip(8) =~= d);
}

/// The filler comes from a shift register with the steps 13, 7 and 17: every byte is the
/// lowest of the state that follows.
pub proof fn law_how_the_filler_goes_on(t: BwTest, after: BwTest, r: Option<Vec<u8>>)
    requires
        t.left > 0,
        exists|x: &mut BwTest|
            *x == t && *final(x) == after && #[trigger] call_ensures(BwTest::next_chunk, (x, 1), r),
    ensures
        ({
            let a = t.state ^ (t.state << 13u64);
            let b = a ^ (a >> 7u64);
            &&& after.state == b ^ (b << 17u64)
            &&& r is Some && r->0@ == seq![after.state as u8]
            &&& after.left + 1 == t.left
        }),
{
    assert(filler_after(t.state, 0) == t.state);
    assert(filler_after(t.state, 1) == filler_step(t.state));
    assert(r->0@ =~= seq![after.state as u8]);
}

/// The filler of a measurement starts from the stream, the circuit and the time, and never
/// from zero.
pub proof fn law_where_the_filler_starts(stream_id: u16, cid: u32, nanos: u64, bytes: usize, t: BwTest)
    requires
        call_ensures(BwTest::new, (stream_id, cid, nanos, bytes), t),
    ensures
        t.state != 0,
        ({
            let a = ((stream_id * 0x9E37_79B9_7F4A_7C15) % 0x1_0000_0000_0000_0000) as u64;
            let b = ((cid * 0xBF58_476D_1CE4_E5B9) % 0x1_0000_0000_0000_0000) as u64;
            t.state == a ^ b ^ nanos || (a ^ b ^ nanos == 0 && t.state == 1)
        }),
{
}

/// A target that is no text ends the stream.
pub proof fn law_targets_are_texts(data: &[u8], r: ExitStep)
    requires
        call_ensures(exit_begin, (data,), r),
        forall|i: int| 0 <= i < data@.len() ==> data@[i] != 0,
        !valid_utf8(data@),
    ensures
        r == ExitStep::End(EndReason::Internal),
{
    lemma_zero_free(data@);
    assert(target_bytes(data@) =~= data@);
}

proof fn lemma_zero_free(b: Seq<u8>)
    requires
        forall|i: int| 0 <= i < b.len() ==> b[i] != 0,
    ensures
        zero_at(b) == b.len(),
    decreases b.len(),
{
    if b.len() > 0 {
        assert forall|i: int| 0 <= i < b.skip(1).len() implies b.skip(1)[i] != 0 by {
            assert(b.skip(1)[i] == b[i + 1]);
        }
        lemma_zero_free(b.skip(1));
    }
}

} // verus!
