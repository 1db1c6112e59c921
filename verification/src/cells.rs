//! What a node does with a cell that arrives on a circuit.
//!
//! A node is the origin of some circuits and a relay on others. Which of these a
//! cell belongs to, and what it carries, decide between a handful of answers; the
//! circuit layer opens cells and carries the answers out.

use crate::bytes::bytes_eq;
use crate::errors;
use crate::errors::Error;
use crate::rendezvous;
use crate::rendezvous::{COOKIE_LEN, EstablishIntro, EstablishRendezvous, Introduce, Rendezvous1, Rendezvous2};
use crate::stream::EndReason;
use crate::text;
use crate::text::hex_decode;
use vstd::prelude::*;
use vstd::string::*;

verus! {

/// The length of a cell, in bytes.
pub const CELL_LEN: usize = 512;

/// What a cell is for.
#[derive(Debug, Clone, Copy, PartialEq, Eq, Structural)]
pub enum CellCommand {
    /// Opens a circuit.
    Create,
    /// Confirms a circuit.
    Created,
    /// Carries a relay message.
    Relay,
    /// Carries a relay message that may extend the circuit.
    RelayEarly,
    /// Closes a circuit.
    Destroy,
    /// Anything else.
    Other,
}

/// What a relay message is for.
#[derive(Debug, Clone, Copy, PartialEq, Eq, Structural)]
pub enum RelayCommand {
    /// Opens a stream.
    Begin,
    /// Confirms a stream.
    Connected,
    /// Carries data of a stream.
    Data,
    /// Ends a stream.
    End,
    /// Opens a window again.
    SendMe,
    /// Extends the circuit by a hop.
    Extend2,
    /// Confirms the extension.
    Extended2,
    /// Makes the last hop an introduction point.
    EstablishIntro,
    /// Confirms that.
    IntroEstablished,
    /// Makes the last hop a rendezvous point.
    EstablishRendezvous,
    /// Confirms that.
    RendezvousEstablished,
    /// Asks an introduction point to introduce a client.
    Introduce1,
    /// Introduces a client to a service.
    Introduce2,
    /// Tells a client that it was introduced.
    IntroduceAck,
    /// Asks a rendezvous point to join two circuits.
    Rendezvous1,
    /// Brings a client the service's half of the handshake.
    Rendezvous2,
    /// Hands over a sealed message for delivery.
    ComInject,
    /// Padding.
    Drop,
    /// Anything else.
    Other,
}

/// A relay message that was opened.
#[derive(Debug)]
pub struct RelayCell {
    /// What it is for.
    pub command: RelayCommand,
    /// The stream it belongs to, zero for none.
    pub stream_id: u16,
    /// What it carries.
    pub data: Vec<u8>,
}

/// The bytes of a cell that arrived as hexadecimal text.
pub open spec fn cell_in(s: Seq<char>) -> Option<Seq<u8>> {
    if text::is_hex(s) && text::unhex(s).len() == CELL_LEN {
        Some(text::unhex(s))
    } else {
        None
    }
}

/// Reads a cell that arrived as hexadecimal text; nothing for a malformed one.
pub fn read_cell(data: &str) -> (r: Option<Vec<u8>>)
    ensures
        r is Some == cell_in(data@) is Some,
        r matches Some(b) ==> Some(b@) == cell_in(data@),
{
    match hex_decode(data) {
        Ok(b) => if b.len() == CELL_LEN {
            Some(b)
        } else {
            None
        },
        Err(_) => None,
    }
}

/// What the circuit layer knows of the circuit that a cell came on.
#[derive(Debug, Clone, Copy)]
pub struct CircuitFacts {
    /// This node is its origin.
    pub origin: bool,
    /// The cell came from the hop behind this node.
    pub backward: bool,
    /// The cell came from the hop before this node.
    pub forward: bool,
}

/// Whom a cell concerns.
#[derive(Debug, Clone, Copy, PartialEq, Eq, Structural)]
pub enum CellStep {
    /// Answer the opening of a circuit.
    AnswerCreate,
    /// Take the confirmation of an own circuit.
    OriginCreated,
    /// Pass the confirmation of an extension on.
    RelayCreated,
    /// Open a relay message on an own circuit.
    Origin,
    /// Pass a relay message on towards the origin.
    Backward,
    /// Open a relay message as a relay.
    Forward,
    /// Close the circuit.
    Destroy,
    /// Nothing.
    Ignore,
}

/// Whom a cell concerns. `refused` is the verdict of the rate limit on a circuit
/// that a peer wants to open; it comes before the handshake, which costs more than
/// the request.
pub open spec fn cell_concerns(c: CellCommand, refused: bool, f: CircuitFacts) -> CellStep {
    match c {
        CellCommand::Create => if refused {
            CellStep::Ignore
        } else {
            CellStep::AnswerCreate
        },
        CellCommand::Created => if f.origin {
            CellStep::OriginCreated
        } else {
            CellStep::RelayCreated
        },
        CellCommand::Relay | CellCommand::RelayEarly => if f.origin {
            CellStep::Origin
        } else if f.backward {
            CellStep::Backward
        } else if f.forward {
            CellStep::Forward
        } else {
            CellStep::Ignore
        },
        CellCommand::Destroy => CellStep::Destroy,
        CellCommand::Other => CellStep::Ignore,
    }
}

/// Whom a cell concerns.
pub fn on_cell(command: CellCommand, refused: bool, facts: CircuitFacts) -> (r: CellStep)
    ensures
        r == cell_concerns(command, refused, facts),
{
    match command {
        CellCommand::Create => if refused {
            CellStep::Ignore
        } else {
            CellStep::AnswerCreate
        },
        CellCommand::Created => if facts.origin {
            CellStep::OriginCreated
        } else {
            CellStep::RelayCreated
        },
        CellCommand::Relay | CellCommand::RelayEarly => if facts.origin {
            CellStep::Origin
        } else if facts.backward {
            CellStep::Backward
        } else if facts.forward {
            CellStep::Forward
        } else {
            CellStep::Ignore
        },
        CellCommand::Destroy => CellStep::Destroy,
        CellCommand::Other => CellStep::Ignore,
    }
}

/// A peer whose address is not known was dialled by this node, and is not limited.
pub fn create_refused(allowed: Option<bool>) -> (r: bool)
    ensures
        r == (allowed == Some(false)),
{
    match allowed {
        Some(a) => !a,
        None => false,
    }
}

/// What the origin of a circuit does with a relay message.
#[derive(Debug)]
pub enum OriginStep {
    /// Nothing.
    Nothing,
    /// Answer a client that was introduced with this message.
    Introduced(Vec<u8>),
    /// Take the service's half of the handshake.
    Met(Vec<u8>),
    /// Mark the stream as open.
    StreamConnected(u16),
    /// Add a piece to the answer that a request awaits.
    Collect(Vec<u8>),
    /// Answer a request to a service of this node.
    Serve(Vec<u8>),
    /// Deliver data to the stream.
    StreamData(u16, Vec<u8>),
    /// Open the circuit's window.
    CircuitWindow,
    /// Open the stream's window.
    StreamWindow(u16),
    /// The answer that a request awaits is complete.
    Complete,
    /// Close the stream.
    StreamEnded(u16, EndReason),
    /// Note that padding arrived.
    Padded,
}

/// The reason that an end message gives.
pub open spec fn end_code(data: Seq<u8>) -> u8 {
    if data.len() > 0 {
        data[0]
    } else {
        0
    }
}

/// `r` is what the origin does with the message. `end_to_end` says that the message
/// came from a service through the rendezvous, `awaited` that a request awaits its
/// answer on the circuit.
pub open spec fn origin_does(r: OriginStep, m: RelayCell, end_to_end: bool, awaited: bool) -> bool {
    match m.command {
        RelayCommand::Introduce2 => r == OriginStep::Introduced(m.data),
        RelayCommand::Rendezvous2 => r == OriginStep::Met(m.data),
        RelayCommand::Connected => r == OriginStep::StreamConnected(m.stream_id),
        RelayCommand::Data => if end_to_end {
            if awaited {
                r == OriginStep::Collect(m.data)
            } else {
                r == OriginStep::Serve(m.data)
            }
        } else {
            r == OriginStep::StreamData(m.stream_id, m.data)
        },
        RelayCommand::SendMe => if m.stream_id == 0 {
            r == OriginStep::CircuitWindow
        } else {
            r == OriginStep::StreamWindow(m.stream_id)
        },
        RelayCommand::End => if end_to_end {
            r == OriginStep::Complete
        } else {
            r matches OriginStep::StreamEnded(id, reason) && id == m.stream_id && if end_code(m.data@)
                <= 5 {
                reason.code() == end_code(m.data@)
            } else {
                reason == EndReason::Internal
            }
        },
        RelayCommand::Drop => r == OriginStep::Padded,
        _ => r == OriginStep::Nothing,
    }
}

/// What the origin of a circuit does with a relay message.
pub fn on_origin_relay(m: RelayCell, end_to_end: bool, awaited: bool) -> (r: OriginStep)
    ensures
        origin_does(r, m, end_to_end, awaited),
{
    match m.command {
        RelayCommand::Introduce2 => OriginStep::Introduced(m.data),
        RelayCommand::Rendezvous2 => OriginStep::Met(m.data),
        RelayCommand::Connected => OriginStep::StreamConnected(m.stream_id),
        RelayCommand::Data => if end_to_end {
            if awaited {
                OriginStep::Collect(m.data)
            } else {
                OriginStep::Serve(m.data)
            }
        } else {
            OriginStep::StreamData(m.stream_id, m.data)
        },
        RelayCommand::SendMe => if m.stream_id == 0 {
            OriginStep::CircuitWindow
        } else {
            OriginStep::StreamWindow(m.stream_id)
        },
        RelayCommand::End => if end_to_end {
            OriginStep::Complete
        } else {
            let code: u8 = if m.data.len() > 0 {
                m.data[0]
            } else {
                0
            };
            OriginStep::StreamEnded(m.stream_id, EndReason::from_byte(code))
        },
        RelayCommand::Drop => OriginStep::Padded,
        _ => OriginStep::Nothing,
    }
}

/// How many acknowledgements the origin sends after it delivered data: one when the
/// stream asks for it, one when the circuit does.
pub fn acks_after_data(stream: Option<Result<bool, Error>>, circuit_due: bool) -> (r: u8)
    ensures
        r == (if stream == Some(Ok::<bool, Error>(true)) {
            1int
        } else {
            0
        }) + (if circuit_due {
            1int
        } else {
            0
        }),
{
    let s: u8 = match stream {
        Some(Ok(due)) => if due {
            1
        } else {
            0
        },
        _ => 0,
    };
    let c: u8 = if circuit_due {
        1
    } else {
        0
    };
    s + c
}

/// What a relay does with a relay message that is meant for it.
#[derive(Debug)]
pub enum RelayStep {
    /// Nothing.
    Nothing,
    /// Extend the circuit as this message asks.
    Extend(Vec<u8>),
    /// Become an introduction point for this key, and say so.
    BeIntroPoint([u8; 32]),
    /// Become a rendezvous point for this cookie, and say so.
    BeRendezvousPoint([u8; 20]),
    /// Introduce a client to the service with the key, with this message.
    Introduce([u8; 32], Vec<u8>),
    /// Join the circuits of this message.
    Join(Rendezvous1),
    /// Deliver a sealed message.
    Inject(Vec<u8>),
    /// Open a stream.
    Begin(u16, Vec<u8>),
    /// Pass data on.
    Data(u16, Vec<u8>),
    /// End a stream.
    End(u16),
    /// Open the circuit's window.
    CircuitWindow,
    /// Open the stream's window.
    StreamWindow(u16),
}

/// `r` is what a relay does with the message.
pub open spec fn relay_does(r: RelayStep, m: RelayCell) -> bool {
    match m.command {
        RelayCommand::Extend2 => r == RelayStep::Extend(m.data),
        RelayCommand::EstablishIntro => match rendezvous::establish_intro_parsed(m.data@) {
            Ok((key, _)) => r matches RelayStep::BeIntroPoint(k) && k@ == key,
            Err(_) => r is Nothing,
        },
        RelayCommand::EstablishRendezvous => if m.data@.len() >= COOKIE_LEN {
            r matches RelayStep::BeRendezvousPoint(c) && c@ == m.data@.take(COOKIE_LEN as int)
        } else {
            r is Nothing
        },
        RelayCommand::Introduce1 => match rendezvous::introduce_parsed(m.data@) {
            Ok((key, _, _, _)) => r matches RelayStep::Introduce(k, d) && k@ == key && d == m.data,
            Err(_) => r is Nothing,
        },
        RelayCommand::Rendezvous1 => if m.data@.len() >= 84 {
            r matches RelayStep::Join(x) && x.cookie@ + x.server_y@ + x.auth@ == m.data@.take(84)
        } else {
            r is Nothing
        },
        RelayCommand::ComInject => r == RelayStep::Inject(m.data),
        RelayCommand::Begin => r == RelayStep::Begin(m.stream_id, m.data),
        RelayCommand::Data => r == RelayStep::Data(m.stream_id, m.data),
        RelayCommand::End => r == RelayStep::End(m.stream_id),
        RelayCommand::SendMe => if m.stream_id == 0 {
            r is CircuitWindow
        } else {
            r == RelayStep::StreamWindow(m.stream_id)
        },
        _ => r is Nothing,
    }
}

/// What a relay does with a relay message that is meant for it.
pub fn on_forward_relay(m: RelayCell) -> (r: RelayStep)
    ensures
        relay_does(r, m),
{
    match m.command {
        RelayCommand::Extend2 => RelayStep::Extend(m.data),
        RelayCommand::EstablishIntro => match EstablishIntro::decode(&m.data) {
            Ok(x) => RelayStep::BeIntroPoint(x.auth_key_pub),
            Err(_) => RelayStep::Nothing,
        },
        RelayCommand::EstablishRendezvous => match EstablishRendezvous::decode(&m.data) {
            Ok(x) => RelayStep::BeRendezvousPoint(x.cookie),
            Err(_) => RelayStep::Nothing,
        },
        RelayCommand::Introduce1 => match Introduce::decode(&m.data) {
            Ok(x) => RelayStep::Introduce(x.auth_key_pub, m.data),
            Err(_) => RelayStep::Nothing,
        },
        RelayCommand::Rendezvous1 => match Rendezvous1::decode(&m.data) {
            Ok(x) => RelayStep::Join(x),
            Err(_) => RelayStep::Nothing,
        },
        RelayCommand::ComInject => RelayStep::Inject(m.data),
        RelayCommand::Begin => RelayStep::Begin(m.stream_id, m.data),
        RelayCommand::Data => RelayStep::Data(m.stream_id, m.data),
        RelayCommand::End => RelayStep::End(m.stream_id),
        RelayCommand::SendMe => if m.stream_id == 0 {
            RelayStep::CircuitWindow
        } else {
            RelayStep::StreamWindow(m.stream_id)
        },
        _ => RelayStep::Nothing,
    }
}

/// Where an introduction goes.
#[derive(Debug)]
pub enum IntroduceStep {
    /// To the service behind this circuit of this peer; the client is told.
    Forward([u8; 32], u32),
    /// To a service of this node; the client is told.
    Own,
    /// Nowhere.
    Unknown,
}

/// Where the introduction to the service with the key goes. `registered` is the
/// circuit on which a service registered the key, if one did.
pub fn introduce_where(key: &[u8; 32], registered: Option<([u8; 32], u32)>, own_pub: &[u8; 32]) -> (r:
    IntroduceStep)
    ensures
        match registered {
            Some((peer, cid)) => r == IntroduceStep::Forward(peer, cid),
            None => if key@ == own_pub@ {
                r is Own
            } else {
                r is Unknown
            },
        },
{
    match registered {
        Some((peer, cid)) => IntroduceStep::Forward(peer, cid),
        None => if bytes_eq(key, own_pub) {
            IntroduceStep::Own
        } else {
            IntroduceStep::Unknown
        },
    }
}

/// What a rendezvous point sends to the client: the service's half of the handshake.
pub fn rendezvous2_data(m: &Rendezvous1) -> (r: Vec<u8>)
    ensures
        r@ == m.server_y@ + m.auth@,
{
    let x: Rendezvous2 = Rendezvous2 { server_y: m.server_y, auth: m.auth };
    x.encode()
}

/// The identifier of the circuit to the next hop, from a random number: the ones
/// with the high bit set are for extensions.
pub fn extension_id(random: u32) -> (r: u32)
    ensures
        r == random | 0x8000_0000,
        r >= 0x8000_0000,
{
    assert(random | 0x8000_0000 >= 0x8000_0000) by (bit_vector);
    random | 0x8000_0000
}

/// What to do to extend a circuit to a peer.
#[derive(Debug, Clone, Copy, PartialEq, Eq, Structural)]
pub enum ExtendStep {
    /// Send the cell that opens the next part of the circuit.
    Send,
    /// Dial the peer first.
    Dial,
    /// Give up: the client's wait runs out.
    Drop,
}

/// What to do to extend a circuit: a peer that is not linked is dialled once, and has
/// to be the one that the circuit asked for. `dialled` says whether a dial succeeded,
/// if one was made.
pub fn extend_step(linked: bool, dialled: Option<bool>) -> (r: ExtendStep)
    ensures
        r == match dialled {
            None => if linked {
                ExtendStep::Send
            } else {
                ExtendStep::Dial
            },
            Some(ok) => if ok && linked {
                ExtendStep::Send
            } else {
                ExtendStep::Drop
            },
        },
{
    match dialled {
        None => if linked {
            ExtendStep::Send
        } else {
            ExtendStep::Dial
        },
        Some(ok) => if ok && linked {
            ExtendStep::Send
        } else {
            ExtendStep::Drop
        },
    }
}

/// Who sends a relay message along an own circuit.
#[derive(Debug, Clone, Copy, PartialEq, Eq, Structural)]
pub enum Outbound {
    /// The opening of a stream.
    StreamOpen,
    /// A stream.
    StreamRelay,
    /// The circuit itself.
    OriginRelay,
    /// The request for an introduction point.
    EstablishIntro,
    /// The request for a rendezvous point.
    EstablishRendezvous,
    /// An introduction.
    Introduce1,
}

/// What is said of a circuit that is not known.
pub open spec fn unknown_circuit(o: Outbound) -> Seq<char> {
    match o {
        Outbound::StreamOpen => "stream_open: no circuit"@,
        Outbound::StreamRelay => "send_stream_relay: no circuit"@,
        Outbound::OriginRelay => "send_origin_relay: unknown circuit"@,
        Outbound::EstablishIntro => "establish_intro: unknown circuit"@,
        Outbound::EstablishRendezvous => "establish_rendezvous: unknown circuit"@,
        Outbound::Introduce1 => "introduce1: unknown circuit"@,
    }
}

/// What is said of a circuit without hops.
pub open spec fn hopless_circuit(o: Outbound) -> Seq<char> {
    match o {
        Outbound::StreamOpen => "stream_open: circuit has no hops"@,
        Outbound::StreamRelay => "send_stream_relay: no hops"@,
        Outbound::OriginRelay => "send_origin_relay: no hops"@,
        Outbound::EstablishIntro => "establish_intro: circuit has no hops"@,
        Outbound::EstablishRendezvous => "establish_rendezvous: no hops"@,
        Outbound::Introduce1 => "introduce1: no hops"@,
    }
}

/// The hop that a relay message goes to: the last of the circuit, whose number of
/// hops is `hops` if it is known.
pub fn target_hop(o: Outbound, hops: Option<usize>) -> (r: Result<usize, Error>)
    ensures
        match hops {
            None => errors::is_handshake(r, unknown_circuit(o)),
            Some(n) => if n == 0 {
                errors::is_handshake(r, hopless_circuit(o))
            } else {
                r == Ok::<usize, Error>((n - 1) as usize)
            },
        },
{
    match hops {
        Some(n) => {
            if n > 0 {
                return Ok(n - 1);
            }
            let t: &str = match o {
                Outbound::StreamOpen => "stream_open: circuit has no hops",
                Outbound::StreamRelay => "send_stream_relay: no hops",
                Outbound::OriginRelay => "send_origin_relay: no hops",
                Outbound::EstablishIntro => "establish_intro: circuit has no hops",
                Outbound::EstablishRendezvous => "establish_rendezvous: no hops",
                Outbound::Introduce1 => "introduce1: no hops",
            };
            Err(Error::Handshake(t.to_owned()))
        },
        None => {
            let t: &str = match o {
                Outbound::StreamOpen => "stream_open: no circuit",
                Outbound::StreamRelay => "send_stream_relay: no circuit",
                Outbound::OriginRelay => "send_origin_relay: unknown circuit",
                Outbound::EstablishIntro => "establish_intro: unknown circuit",
                Outbound::EstablishRendezvous => "establish_rendezvous: unknown circuit",
                Outbound::Introduce1 => "introduce1: unknown circuit",
            };
            Err(Error::Handshake(t.to_owned()))
        },
    }
}

/// Whether a piece of a stream's data may be sent. `stream` is what the stream's
/// window says, if the stream is known; `circuit` what the circuit's window says, if
/// the circuit is still there.
pub fn may_write(
    circuit_known: bool,
    stream: Option<Result<(), Error>>,
    circuit: Option<Result<(), Error>>,
) -> (r: Result<(), Error>)
    ensures
        if !circuit_known {
            errors::is_handshake(r, "stream_write: no circuit"@)
        } else {
            match stream {
                None => errors::is_handshake(r, "stream_write: unknown stream"@),
                Some(Err(e)) => r == Err::<(), Error>(e),
                Some(Ok(_)) => match circuit {
                    None => errors::is_handshake(r, "stream_write: circuit gone"@),
                    Some(x) => r == x,
                },
            }
        },
{
    if !circuit_known {
        return Err(Error::Handshake("stream_write: no circuit".to_owned()));
    }
    match stream {
        None => Err(Error::Handshake("stream_write: unknown stream".to_owned())),
        Some(Err(e)) => Err(e),
        Some(Ok(_)) => match circuit {
            None => Err(Error::Handshake("stream_write: circuit gone".to_owned())),
            Some(x) => x,
        },
    }
}

/// The data of the message that asks for an introduction point.
pub fn establish_intro_data(auth_key_pub: [u8; 32]) -> (r: Vec<u8>)
    ensures
        r@ == rendezvous::establish_intro_bytes(auth_key_pub@, Seq::new(32, |i: int| 0u8)),
{
    let x: EstablishIntro = EstablishIntro { auth_key_pub, sig: [0u8; 32] };
    assert(x.sig@ =~= Seq::new(32, |i: int| 0u8));
    x.encode()
}

/// No message makes a node both the origin's and a relay's business: a cell of an own
/// circuit is never taken as a relay's.
pub proof fn law_own_circuits_come_first(c: CellCommand, refused: bool, f: CircuitFacts)
    requires
        f.origin,
    ensures
        cell_concerns(c, refused, f) != CellStep::Forward,
        cell_concerns(c, refused, f) != CellStep::Backward,
        cell_concerns(c, refused, f) != CellStep::RelayCreated,
{
}

/// A relay becomes an introduction point for the key that the service sent.
pub proof fn law_intro_points_take_the_key(r: RelayStep, m: RelayCell, key: Seq<u8>, sig: Seq<u8>, pad: Seq<u8>)
    requires
        key.len() == 32,
        sig.len() == 32,
        m.command == RelayCommand::EstablishIntro,
        m.data@ == rendezvous::establish_intro_bytes(key, sig) + pad,
        relay_does(r, m),
    ensures
        r matches RelayStep::BeIntroPoint(k) && k@ == key,
{
    rendezvous::law_establish_intro_roundtrip(key, sig, pad);
}

/// The client is brought what the service sent to the rendezvous point.
pub proof fn law_the_rendezvous_point_passes_the_handshake_on(
    r: RelayStep,
    m: RelayCell,
    cookie: Seq<u8>,
    y: Seq<u8>,
    auth: Seq<u8>,
    pad: Seq<u8>,
)
    requires
        cookie.len() == 20,
        y.len() == 32,
        auth.len() == 32,
        m.command == RelayCommand::Rendezvous1,
        m.data@ == cookie + y + auth + pad,
        relay_does(r, m),
    ensures
        r matches RelayStep::Join(x) && x.cookie@ == cookie && x.server_y@ + x.auth@ == y + auth,
{
    assert(m.data@.take(84) =~= cookie + y + auth);
    if let RelayStep::Join(x) = r {
        let s = x.cookie@ + x.server_y@ + x.auth@;
        assert(s.take(20) =~= x.cookie@);
        assert((cookie + y + auth).take(20) =~= cookie);
        assert(s.skip(20) =~= x.server_y@ + x.auth@);
        assert((cookie + y + auth).skip(20) =~= y + auth);
    }
}

/// Every cell goes to the one part of the node that its circuit concerns. A relay
/// message is opened as the origin's exactly on an own circuit, passed back exactly
/// where it came from the hop behind on a circuit of others, and opened as a relay's
/// exactly where it came from the hop before; it is dropped only on a circuit that
/// this node has no part in. A request for a circuit is answered unless it was
/// refused, and a confirmation and a closing are never dropped.
pub proof fn law_every_cell_reaches_its_circuit(c: CellCommand, refused: bool, f: CircuitFacts, r: CellStep)
    requires
        call_ensures(on_cell, (c, refused, f), r),
    ensures
        c is Relay || c is RelayEarly ==> {
            &&& r is Origin <==> f.origin
            &&& r is Backward <==> f.backward && !f.origin
            &&& r is Forward <==> f.forward && !f.backward && !f.origin
            &&& r is Ignore <==> !f.forward && !f.backward && !f.origin
        },
        r is Origin || r is Backward || r is Forward ==> c is Relay || c is RelayEarly,
        r is AnswerCreate <==> c is Create && !refused,
        c is Create && refused ==> r is Ignore,
        r is OriginCreated <==> c is Created && f.origin,
        r is RelayCreated <==> c is Created && !f.origin,
        r is Destroy <==> c is Destroy,
        c is Other ==> r is Ignore,
{
}

/// A relay message goes where it would go in a cell of the other kind: what may
/// extend a circuit and what may not are told apart by their contents alone. Only the
/// opening of a circuit asks what the rate limit says.
pub proof fn law_early_cells_go_the_same_way(f: CircuitFacts, x: bool, y: bool, a: CellStep, b: CellStep)
    requires
        call_ensures(on_cell, (CellCommand::Relay, x, f), a),
        call_ensures(on_cell, (CellCommand::RelayEarly, y, f), b),
    ensures
        a == b,
{
}

/// The messages of a stream reach the exit's end of it: what opens it and what it
/// carries, byte for byte, under the number that the client gave it, and its end. An
/// acknowledgement opens the stream's window, or the circuit's where it names no
/// stream. None of them goes without an answer.
pub proof fn law_the_exit_takes_what_a_stream_sends(m: RelayCell, r: RelayStep)
    requires
        call_ensures(on_forward_relay, (m,), r),
    ensures
        m.command is Data ==> (r matches RelayStep::Data(id, d) && id == m.stream_id && d@ == m.data@),
        m.command is Begin ==> (r matches RelayStep::Begin(id, d) && id == m.stream_id && d@ == m.data@),
        m.command is End ==> (r matches RelayStep::End(id) && id == m.stream_id),
        m.command is SendMe && m.stream_id != 0 ==> (r matches RelayStep::StreamWindow(id) && id
            == m.stream_id),
        m.command is SendMe && m.stream_id == 0 ==> r is CircuitWindow,
        m.command is Begin || m.command is Data || m.command is End || m.command is SendMe ==> !(r is Nothing),
        r is Data ==> m.command is Data,
        r is Begin ==> m.command is Begin,
        r is End ==> m.command is End,
        r is StreamWindow || r is CircuitWindow ==> m.command is SendMe,
{
}

/// A relay acts on every message that asks something of it: it extends the circuit
/// with the very bytes that were sent, delivers a sealed message as it is, and
/// becomes an introduction or a rendezvous point, or joins two circuits, for whatever
/// such a message can be read from. What only an origin may be sent does nothing
/// here, and padding does nothing.
pub proof fn law_a_relay_acts_on_what_it_is_asked(m: RelayCell, r: RelayStep)
    requires
        call_ensures(on_forward_relay, (m,), r),
    ensures
        m.command is Extend2 ==> (r matches RelayStep::Extend(d) && d@ == m.data@),
        r is Extend ==> m.command is Extend2,
        m.command is ComInject ==> (r matches RelayStep::Inject(d) && d@ == m.data@),
        r is Inject ==> m.command is ComInject,
        m.command is EstablishRendezvous && m.data@.len() >= 20 ==> (r matches RelayStep::BeRendezvousPoint(c)
            && c@ == m.data@.take(20)),
        m.command is Rendezvous1 && m.data@.len() >= 84 ==> (r matches RelayStep::Join(x) && x.cookie@
            == m.data@.take(20)),
        r is BeIntroPoint ==> m.command is EstablishIntro,
        r is BeRendezvousPoint ==> m.command is EstablishRendezvous && m.data@.len() >= 20,
        r is Introduce ==> m.command is Introduce1,
        r is Join ==> m.command is Rendezvous1 && m.data@.len() >= 84,
        m.command is Drop || m.command is Connected || m.command is Extended2 || m.command is IntroEstablished
            || m.command is RendezvousEstablished || m.command is Introduce2 || m.command is IntroduceAck
            || m.command is Rendezvous2 || m.command is Other ==> r is Nothing,
{
    if m.command is Rendezvous1 && m.data@.len() >= 84 {
        if let RelayStep::Join(x) = r {
            assert((x.cookie@ + x.server_y@ + x.auth@).take(20) =~= x.cookie@);
            assert(m.data@.take(84).take(20) =~= m.data@.take(20));
        }
    }
}

/// A client's request for an introduction goes on whole, to the service whose key
/// stands in it.
pub proof fn law_an_introduction_goes_on_whole(
    m: RelayCell,
    r: RelayStep,
    key: Seq<u8>,
    client: Seq<u8>,
    sealed: Seq<u8>,
    mac: Seq<u8>,
    pad: Seq<u8>,
)
    requires
        key.len() == 32,
        client.len() == 32,
        sealed.len() < 0x1_0000,
        mac.len() == 32,
        m.command is Introduce1,
        m.data@ == rendezvous::introduce_bytes(key, client, sealed, mac) + pad,
        call_ensures(on_forward_relay, (m,), r),
    ensures
        r matches RelayStep::Introduce(k, d) && k@ == key && d@ == m.data@,
{
    rendezvous::law_introduce_roundtrip(key, client, sealed, mac, pad);
}

/// What an origin is sent on a stream of its own reaches that stream: its
/// confirmation, its data byte for byte, its window and its end. What a service sends
/// through the rendezvous reaches the request that awaits it, or a service of this
/// node where none does; its end completes the answer. None of it is dropped.
pub proof fn law_the_origin_takes_what_it_is_sent(
    m: RelayCell,
    end_to_end: bool,
    awaited: bool,
    r: OriginStep,
)
    requires
        call_ensures(on_origin_relay, (m, end_to_end, awaited), r),
    ensures
        m.command is Data && !end_to_end ==> (r matches OriginStep::StreamData(id, d) && id == m.stream_id && d@
            == m.data@),
        m.command is Data && end_to_end && awaited ==> (r matches OriginStep::Collect(d) && d@ == m.data@),
        m.command is Data && end_to_end && !awaited ==> (r matches OriginStep::Serve(d) && d@ == m.data@),
        r is StreamData || r is Collect || r is Serve ==> m.command is Data,
        m.command is Connected ==> (r matches OriginStep::StreamConnected(id) && id == m.stream_id),
        m.command is Introduce2 ==> (r matches OriginStep::Introduced(d) && d@ == m.data@),
        m.command is Rendezvous2 ==> (r matches OriginStep::Met(d) && d@ == m.data@),
        m.command is End && end_to_end ==> r is Complete,
        m.command is End && !end_to_end ==> (r matches OriginStep::StreamEnded(id, _) && id == m.stream_id),
        r is Complete || r is StreamEnded ==> m.command is End,
        m.command is SendMe && m.stream_id != 0 ==> (r matches OriginStep::StreamWindow(id) && id
            == m.stream_id),
        m.command is SendMe && m.stream_id == 0 ==> r is CircuitWindow,
        r is StreamWindow || r is CircuitWindow ==> m.command is SendMe,
        r is Padded <==> m.command is Drop,
        r is Nothing ==> !(m.command is Data) && !(m.command is End) && !(m.command is SendMe)
            && !(m.command is Connected) && !(m.command is Introduce2) && !(m.command is Rendezvous2)
            && !(m.command is Drop),
{
}

/// The reason that the other end of a stream gave comes out as it was sent.
pub proof fn law_the_end_of_a_stream_keeps_its_reason(
    m: RelayCell,
    awaited: bool,
    r: OriginStep,
    reason: EndReason,
)
    requires
        m.command is End,
        m.data@.len() > 0,
        m.data@[0] == reason.code(),
        call_ensures(on_origin_relay, (m, false, awaited), r),
    ensures
        r == OriginStep::StreamEnded(m.stream_id, reason),
{
}

/// A request for a circuit is refused exactly where the rate limit was asked and said
/// no.
pub proof fn law_only_the_rate_limit_refuses(allowed: bool, r: bool, unasked: bool)
    requires
        call_ensures(create_refused, (Some(allowed),), r),
        call_ensures(create_refused, (None,), unasked),
    ensures
        r != allowed,
        !unasked,
{
}

/// Delivered data is acknowledged once for every window that asks for it, and a
/// stream that is gone or refuses the data asks for nothing.
pub proof fn law_each_window_is_acknowledged_once(
    stream: Option<Result<bool, Error>>,
    circuit_due: bool,
    r: u8,
    without: u8,
)
    requires
        call_ensures(acks_after_data, (stream, circuit_due), r),
        call_ensures(acks_after_data, (None, circuit_due), without),
    ensures
        without == 1 <==> circuit_due,
        without == 0 <==> !circuit_due,
        stream is Some && stream->0 is Ok && stream->0->Ok_0 ==> r == without + 1,
        stream is None || stream->0 is Err || !stream->0->Ok_0 ==> r == without,
{
}

/// An introduction goes to the circuit that a service registered its key on,
/// whatever keys this node has; without one it goes to this node's own service
/// exactly where the key is that service's.
pub proof fn law_introductions_go_to_who_registered(
    key: &[u8; 32],
    registered: Option<([u8; 32], u32)>,
    own_pub: &[u8; 32],
    r: IntroduceStep,
)
    requires
        call_ensures(introduce_where, (key, registered, own_pub), r),
    ensures
        registered is Some ==> (r matches IntroduceStep::Forward(peer, cid) && (peer, cid) == registered->0),
        r is Forward ==> registered is Some,
        r is Own <==> registered is None && key@ == own_pub@,
        r is Unknown <==> registered is None && key@ != own_pub@,
{
}

/// A circuit is extended over a link that is there, and never over one that is not:
/// without a link the peer is dialled, once, and then given up.
pub proof fn law_extending_dials_once(linked: bool, ok: bool, before: ExtendStep, after: ExtendStep, late: bool)
    requires
        call_ensures(extend_step, (linked, None), before),
        call_ensures(extend_step, (late, Some(ok)), after),
    ensures
        before is Send <==> linked,
        before is Dial <==> !linked,
        after is Send <==> ok && late,
        after is Drop <==> !(ok && late),
{
}

/// Relay messages of an own circuit go to its last hop, whoever sends them.
pub proof fn law_messages_go_to_the_last_hop(o: Outbound, hops: Option<usize>, r: Result<usize, Error>)
    requires
        call_ensures(target_hop, (o, hops), r),
    ensures
        r is Ok <==> hops is Some && hops->0 > 0,
        r is Ok ==> r->Ok_0 + 1 == hops->0,
        r is Err ==> r->Err_0 is Handshake,
{
}

/// Data may be sent exactly where the circuit, the stream and both windows allow it,
/// and the first of them to refuse gives the reason.
pub proof fn law_data_needs_both_windows(
    circuit_known: bool,
    stream: Option<Result<(), Error>>,
    circuit: Option<Result<(), Error>>,
    r: Result<(), Error>,
)
    requires
        call_ensures(may_write, (circuit_known, stream, circuit), r),
    ensures
        r is Ok <==> circuit_known && (stream is Some && stream->0 is Ok) && (circuit is Some && circuit->0 is Ok),
        circuit_known && stream is Some && stream->0 is Err ==> r == stream->0,
        circuit_known && (stream is Some && stream->0 is Ok) && circuit is Some ==> r == circuit->0,
        !circuit_known || stream is None || (stream->0 is Ok && circuit is None) ==> r->Err_0 is Handshake,
{
}

/// The circuits that an extension opens never share a number with those that a peer
/// opens with the high bit clear, and the rest of the number is the one drawn.
pub proof fn law_extensions_have_numbers_of_their_own(random: u32, r: u32)
    requires
        call_ensures(extension_id, (random,), r),
    ensures
        r >= 0x8000_0000,
        r == random || r == random + 0x8000_0000,
{
    assert(random < 0x8000_0000 ==> random | 0x8000_0000 == random + 0x8000_0000) by (bit_vector);
    assert(random >= 0x8000_0000 ==> random | 0x8000_0000 == random) by (bit_vector);
}

/// A relay that gets the request which [`establish_intro_data`] writes becomes the
/// introduction point of that key.
pub proof fn law_the_request_makes_an_introduction_point(key: [u8; 32], m: RelayCell, r: RelayStep)
    requires
        m.command is EstablishIntro,
        call_ensures(establish_intro_data, (key,), m.data),
        call_ensures(on_forward_relay, (m,), r),
    ensures
        r matches RelayStep::BeIntroPoint(k) && k@ == key@,
{
    let zeros = Seq::new(32, |i: int| 0u8);
    assert(m.data@ =~= m.data@ + Seq::<u8>::empty());
    law_intro_points_take_the_key(r, m, key@, zeros, Seq::empty());
}

/// What the rendezvous point sends on, the client reads as the service's half of the
/// handshake.
pub proof fn law_the_client_reads_what_the_point_sends_on(
    join: RelayStep,
    m: RelayCell,
    x: Rendezvous1,
    sent: Vec<u8>,
    read: OriginStep,
    stream_id: u16,
    end_to_end: bool,
    awaited: bool,
)
    requires
        m.command is Rendezvous1,
        m.data@.len() >= 84,
        call_ensures(on_forward_relay, (m,), join),
        join == RelayStep::Join(x),
        call_ensures(rendezvous2_data, (&x,), sent),
        call_ensures(
            on_origin_relay,
            ((RelayCell { command: RelayCommand::Rendezvous2, stream_id, data: sent }), end_to_end, awaited),
            read,
        ),
    ensures
        read matches OriginStep::Met(d) && d@ == m.data@.subrange(20, 84),
{
    let s = x.cookie@ + x.server_y@ + x.auth@;
    assert(s.skip(20) =~= x.server_y@ + x.auth@);
    assert(m.data@.take(84).skip(20) =~= m.data@.subrange(20, 84));
}

/// What is said of a circuit that is not known, or that has no hops, tells what was about to
/// be sent along it.
pub proof fn law_what_is_said_of_a_lost_circuit(o: Outbound, unknown: Result<usize, Error>, hopless: Result<usize, Error>)
    requires
        call_ensures(target_hop, (o, None), unknown),
        call_ensures(target_hop, (o, Some(0)), hopless),
    ensures
        (unknown matches Err(Error::Handshake(t)) && t@ == match o {
            Outbound::StreamOpen => "stream_open: no circuit"@,
            Outbound::StreamRelay => "send_stream_relay: no circuit"@,
            Outbound::OriginRelay => "send_origin_relay: unknown circuit"@,
            Outbound::EstablishIntro => "establish_intro: unknown circuit"@,
            Outbound::EstablishRendezvous => "establish_rendezvous: unknown circuit"@,
            Outbound::Introduce1 => "introduce1: unknown circuit"@,
        }),
        (hopless matches Err(Error::Handshake(t)) && t@ == match o {
            Outbound::StreamOpen => "stream_open: circuit has no hops"@,
            Outbound::StreamRelay => "send_stream_relay: no hops"@,
            Outbound::OriginRelay => "send_origin_relay: no hops"@,
            Outbound::EstablishIntro => "establish_intro: circuit has no hops"@,
            Outbound::EstablishRendezvous => "establish_rendezvous: no hops"@,
            Outbound::Introduce1 => "introduce1: no hops"@,
        }),
{
}

/// A cell is read from its hexadecimal text, of either case, exactly where that spells as
/// many bytes as a cell has.
pub proof fn law_cells_are_read_whole(data: &str, r: Option<Vec<u8>>)
    requires
        call_ensures(read_cell, (data,), r),
    ensures
        r is Some <==> text::is_hex(data@) && data@.len() == 1024,
        r is Some ==> r->0@.len() == 512 && text::hex_of(r->0@) == text::lowered(data@),
{
    if text::is_hex(data@) {
        text::lemma_unhex_lowered(data@);
    }
}

} // verus!
