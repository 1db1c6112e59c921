//! How circuits are built: which relays they go through, in which steps, and what is
//! said when a step fails.

use crate::bytes::{bytes_eq, copy_range};
use crate::circuit::LinkSpec;
use crate::descriptor::ResolvedIntro;
use crate::dht::PeerInfo;
use crate::directory;
use crate::directory::ConsensusDocument;
use crate::errors;
use crate::errors::Error;
use crate::onion;
use crate::onion::subnet16;
use crate::padding::PadDecision;
use crate::path_select;
use crate::path_select::{PathError, SelectedPath, select_path};
use crate::rotation;
use crate::rotation::parse_id;
use crate::text;
use crate::text::{decimal_string, hex_encode, join2, join3, str_eq};
use crate::vanguards;
use crate::vanguards::{VanguardEntry, Vanguards};
use vstd::prelude::*;
use vstd::string::*;

verus! {

/// How often a path is drawn before the node gives up.
pub const PATH_DRAWS: usize = 24;

/// How many milliseconds to wait before looking at a growing circuit again.
pub const BUILD_POLL_MILLIS: u64 = 50;

/// The path does not end at the node `avoid`.
pub open spec fn ends_elsewhere(p: SelectedPath, avoid: Option<Seq<char>>) -> bool {
    match avoid {
        None => true,
        Some(bad) => p.hops@.len() > 0 && p.hops@.last().node_id_hex@ != bad,
    }
}

/// `r` is a path for a circuit that is kept ready, or the reason why there is none:
/// selection failed, or every draw ended at the node to avoid.
pub open spec fn pool_path_is(
    r: Result<SelectedPath, Error>,
    c: ConsensusDocument,
    excluded: Seq<String>,
    avoid: Option<Seq<char>>,
) -> bool {
    match r {
        Ok(p) => path_select::selectable(c, excluded, None, p) && ends_elsewhere(p, avoid),
        Err(_) => {
            ||| exists|t: Seq<char>| #[trigger]
                path_select::can_fail(c, excluded, None, t) && errors::is_handshake(
                    r,
                    "circuit pool: "@ + t,
                )
            ||| errors::is_handshake(
                r,
                "circuit pool: every draw put the terminal hop on the service's own relay — the network needs more relays"@,
            ) && exists|p: SelectedPath| #[trigger]
                path_select::selectable(c, excluded, None, p) && !ends_elsewhere(p, avoid)
        },
    }
}

fn path_ends_elsewhere(p: &SelectedPath, avoid: Option<&str>) -> (r: bool)
    ensures
        r == ends_elsewhere(
            *p,
            match avoid {
                Some(a) => Some(a@),
                None => None,
            },
        ),
{
    match avoid {
        None => true,
        Some(bad) => {
            let n: usize = p.hops.len();
            n > 0 && !str_eq(p.hops[n - 1].node_id_hex.as_str(), bad)
        },
    }
}

/// What came of drawing a path from each of the states, one draw a state: a path, or the
/// text that says why there is none.
pub open spec fn are_draws(
    states: Seq<rand::rngs::StdRng>,
    drawn: Seq<Result<SelectedPath, Seq<char>>>,
    c: ConsensusDocument,
    excluded: Seq<String>,
) -> bool {
    &&& states.len() == drawn.len()
    &&& forall|i: int|
        0 <= i < drawn.len() ==> match #[trigger] drawn[i] {
            Ok(p) => path_select::draws_path(states[i], c, excluded, None, p),
            Err(t) => path_select::draws_no_path(states[i], c, excluded, None, t),
        }
}

/// Draws a path that does not end at the node `avoid`.
pub fn pool_path(
    rng: &mut rand::rngs::StdRng,
    consensus: &ConsensusDocument,
    excluded: &[String],
    avoid: Option<&str>,
) -> (r: Result<SelectedPath, Error>)
    requires
        path_select::total_bandwidth(consensus.peers@) <= u64::MAX,
    ensures
        pool_path_is(
            r,
            *consensus,
            excluded@,
            match avoid {
                Some(a) => Some(a@),
                None => None,
            },
        ),
        exists|states: Seq<rand::rngs::StdRng>, drawn: Seq<Result<SelectedPath, Seq<char>>>|
            {
                &&& #[trigger] are_draws(states, drawn, *consensus, excluded@)
                &&& 0 < drawn.len() <= 24
                &&& states[0] == *old(rng)
                &&& match drawn.last() {
                    Ok(p) => match r {
                        Ok(path) => path == p,
                        Err(_) => drawn.len() == 24,
                    },
                    Err(t) => errors::is_handshake(r, "circuit pool: "@ + t),
                }
            },
{
    let ghost a = match avoid {
        Some(a) => Some(a@),
        None => None,
    };
    let ghost mut bad: Option<SelectedPath> = None;
    let ghost mut states: Seq<rand::rngs::StdRng> = Seq::empty();
    let ghost mut drawn: Seq<Result<SelectedPath, Seq<char>>> = Seq::empty();
    let mut i: usize = 0;
    while i < PATH_DRAWS
        invariant
            i <= PATH_DRAWS,
            path_select::total_bandwidth(consensus.peers@) <= u64::MAX,
            a == (match avoid {
                Some(a) => Some(a@),
                None => None,
            }),
            i > 0 ==> bad is Some && path_select::selectable(*consensus, excluded@, None, bad->0)
                && !ends_elsewhere(bad->0, a),
            are_draws(states, drawn, *consensus, excluded@),
            drawn.len() == i,
            if i > 0 {
                states[0] == *old(rng) && drawn.last() is Ok
            } else {
                *rng == *old(rng)
            },
        decreases PATH_DRAWS - i,
    {
        proof {
            states = states.push(*rng);
        }
        match select_path(rng, consensus, excluded, None) {
            Ok(p) => {
                proof {
                    drawn = drawn.push(Ok(p));
                    assert(are_draws(states, drawn, *consensus, excluded@));
                }
                if path_ends_elsewhere(&p, avoid) {
                    return Ok(p);
                }
                proof {
                    bad = Some(p);
                }
            },
            Err(PathError::InsufficientRelays(s)) => {
                let r: Result<SelectedPath, Error> = Err(
                    Error::Handshake(join2("circuit pool: ", s.as_str())),
                );
                assert(path_select::can_fail(*consensus, excluded@, None, s@));
                assert(pool_path_is(r, *consensus, excluded@, a));
                proof {
                    drawn = drawn.push(Err(s@));
                    assert(are_draws(states, drawn, *consensus, excluded@));
                }
                return r;
            },
        }
        i += 1;
    }
    Err(
        Error::Handshake(
            "circuit pool: every draw put the terminal hop on the service's own relay — the network needs more relays".to_owned(),
        ),
    )
}

/// No hop of the path but its last is the node `avoid`.
pub open spec fn passes_by(p: SelectedPath, avoid: Seq<char>) -> bool {
    p.hops@.len() > 0 && forall|i: int|
        0 <= i < p.hops@.len() - 1 ==> #[trigger] p.hops@[i].node_id_hex@ != avoid
}

fn path_passes_by(p: &SelectedPath, avoid: &str) -> (r: bool)
    ensures
        r == passes_by(*p, avoid@),
{
    let n: usize = p.hops.len();
    if n == 0 {
        return false;
    }
    let mut i: usize = 0;
    while i < n - 1
        invariant
            n == p.hops@.len(),
            0 < n,
            i <= n - 1,
            forall|j: int| 0 <= j < i ==> #[trigger] p.hops@[j].node_id_hex@ != avoid@,
        decreases n - i,
    {
        if str_eq(p.hops[i].node_id_hex.as_str(), avoid) {
            return false;
        }
        i += 1;
    }
    true
}

/// `r` is a path past the node `avoid`; nothing can come only where selection can
/// fail, or can give a path through that node.
pub open spec fn drawn_past(
    r: Option<SelectedPath>,
    c: ConsensusDocument,
    excluded: Seq<String>,
    avoid: Seq<char>,
) -> bool {
    match r {
        Some(p) => path_select::selectable(c, excluded, None, p) && passes_by(p, avoid),
        None => {
            ||| exists|t: Seq<char>| #[trigger] path_select::can_fail(c, excluded, None, t)
            ||| exists|p: SelectedPath| #[trigger]
                path_select::selectable(c, excluded, None, p) && !passes_by(p, avoid)
        },
    }
}

/// Up to 24 paths were drawn, first from the state `state`, until one passed by the node
/// `avoid`; without one, 24 were drawn and none did.
pub open spec fn tried_past(
    r: Option<SelectedPath>,
    state: rand::rngs::StdRng,
    c: ConsensusDocument,
    excluded: Seq<String>,
    avoid: Seq<char>,
) -> bool {
    exists|states: Seq<rand::rngs::StdRng>, drawn: Seq<Result<SelectedPath, Seq<char>>>|
        {
            &&& #[trigger] are_draws(states, drawn, c, excluded)
            &&& 0 < drawn.len() <= 24
            &&& states[0] == state
            &&& forall|k: int|
                0 <= k < drawn.len() - 1 ==> (#[trigger] drawn[k] is Ok ==> !passes_by(drawn[k]->Ok_0, avoid))
            &&& match r {
                Some(p) => drawn.last() == Ok::<SelectedPath, Seq<char>>(p) && passes_by(p, avoid),
                None => drawn.len() == 24 && (drawn.last() is Ok ==> !passes_by(drawn.last()->Ok_0, avoid)),
            }
        }
}

fn draw_past(
    rng: &mut rand::rngs::StdRng,
    consensus: &ConsensusDocument,
    excluded: &[String],
    avoid: &str,
) -> (r: Option<SelectedPath>)
    requires
        path_select::total_bandwidth(consensus.peers@) <= u64::MAX,
    ensures
        drawn_past(r, *consensus, excluded@, avoid@),
        tried_past(r, *old(rng), *consensus, excluded@, avoid@),
{
    let ghost mut states: Seq<rand::rngs::StdRng> = Seq::empty();
    let ghost mut drawn: Seq<Result<SelectedPath, Seq<char>>> = Seq::empty();
    let mut i: usize = 0;
    while i < PATH_DRAWS
        invariant
            i <= PATH_DRAWS,
            path_select::total_bandwidth(consensus.peers@) <= u64::MAX,
            i > 0 ==> drawn_past(None, *consensus, excluded@, avoid@),
            are_draws(states, drawn, *consensus, excluded@),
            drawn.len() == i,
            forall|k: int|
                0 <= k < drawn.len() ==> (#[trigger] drawn[k] is Ok ==> !passes_by(drawn[k]->Ok_0, avoid@)),
            if i > 0 {
                states[0] == *old(rng)
            } else {
                *rng == *old(rng)
            },
        decreases PATH_DRAWS - i,
    {
        proof {
            states = states.push(*rng);
        }
        match select_path(rng, consensus, excluded, None) {
            Ok(p) => {
                proof {
                    drawn = drawn.push(Ok(p));
                    assert(are_draws(states, drawn, *consensus, excluded@));
                }
                if path_passes_by(&p, avoid) {
                    return Some(p);
                }
                assert(path_select::selectable(*consensus, excluded@, None, p) && !passes_by(
                    p,
                    avoid@,
                ));
            },
            Err(PathError::InsufficientRelays(s)) => {
                assert(path_select::can_fail(*consensus, excluded@, None, s@));
                proof {
                    drawn = drawn.push(Err(s@));
                    assert(are_draws(states, drawn, *consensus, excluded@));
                }
            },
        }
        i += 1;
    }
    None
}

/// Draws a path to a service's introduction point that does not lead through the
/// service's own relay, `hs_hex`. A path that shares no relay with the rendezvous
/// circuit, whose relays `excluded` lists, is preferred to one that excludes only
/// the node itself.
pub fn intro_path(
    rng: &mut rand::rngs::StdRng,
    consensus: &ConsensusDocument,
    excluded: &[String],
    only_self: &[String],
    hs_hex: &str,
) -> (r: Result<SelectedPath, Error>)
    requires
        path_select::total_bandwidth(consensus.peers@) <= u64::MAX,
    ensures
        match r {
            Ok(p) => {
                ||| drawn_past(Some(p), *consensus, excluded@, hs_hex@)
                ||| drawn_past(None, *consensus, excluded@, hs_hex@) && drawn_past(
                    Some(p),
                    *consensus,
                    only_self@,
                    hs_hex@,
                )
            },
            Err(_) => {
                &&& drawn_past(None, *consensus, excluded@, hs_hex@)
                &&& drawn_past(None, *consensus, only_self@, hs_hex@)
                &&& errors::is_handshake(
                    r,
                    "hs_fetch: intro path selection: no path avoids routing through the service's own relay — the network needs more relays"@,
                )
            },
        },
        match r {
            Ok(p) => {
                ||| tried_past(Some(p), *old(rng), *consensus, excluded@, hs_hex@)
                ||| tried_past(None, *old(rng), *consensus, excluded@, hs_hex@) && exists|later: rand::rngs::StdRng| #[trigger]
                    tried_past(Some(p), later, *consensus, only_self@, hs_hex@)
            },
            Err(_) => tried_past(None, *old(rng), *consensus, excluded@, hs_hex@) && exists|later: rand::rngs::StdRng| #[trigger]
                tried_past(None, later, *consensus, only_self@, hs_hex@),
        },
{
    if let Some(p) = draw_past(rng, consensus, excluded, hs_hex) {
        return Ok(p);
    }
    match draw_past(rng, consensus, only_self, hs_hex) {
        Some(p) => Ok(p),
        None => Err(
            Error::Handshake(
                "hs_fetch: intro path selection: no path avoids routing through the service's own relay — the network needs more relays".to_owned(),
            ),
        ),
    }
}

/// The relays that an introduction circuit should not share: this node and the hops
/// of the rendezvous circuit.
pub fn intro_exclusions(self_id: &str, rp_hops: &[LinkSpec]) -> (r: Vec<String>)
    ensures
        r@.len() == rp_hops@.len() + 1,
        r@[0]@ == self_id@,
        forall|i: int|
            0 <= i < rp_hops@.len() ==> #[trigger] r@[i + 1]@ == text::hex_of(rp_hops@[i].node_id@),
{
    let mut r: Vec<String> = Vec::new();
    r.push(self_id.to_owned());
    let mut i: usize = 0;
    while i < rp_hops.len()
        invariant
            i <= rp_hops@.len(),
            r@.len() == i + 1,
            r@[0]@ == self_id@,
            forall|j: int|
                0 <= j < i ==> #[trigger] r@[j + 1]@ == text::hex_of(rp_hops@[j].node_id@),
        decreases rp_hops@.len() - i,
    {
        r.push(hex_encode(&rp_hops[i].node_id));
        i += 1;
    }
    r
}

/// The last hop of a path to a service: the way in, at the address that the
/// descriptor gives, or that of the hop whose place it takes.
pub open spec fn is_way_in(l: LinkSpec, before: LinkSpec, x: ResolvedIntro) -> bool {
    &&& l.node_id == x.intro_node_id
    &&& l.static_pub == x.intro_pub
    &&& l.host@ == match x.intro_host {
        Some(h) => h@,
        None => before.host@,
    }
    &&& l.port == match x.intro_port {
        Some(p) => p,
        None => before.port,
    }
}

/// The identifier is zero.
pub open spec fn is_zero(id: Seq<u8>) -> bool {
    forall|i: int| 0 <= i < id.len() ==> id[i] == 0
}

/// Makes the way in to a service the last hop of a path. A descriptor that does not
/// name the node there is of no use.
pub fn aim_at_service(mut specs: Vec<LinkSpec>, resolved: &ResolvedIntro) -> (r: Result<
    Vec<LinkSpec>,
    Error,
>)
    ensures
        if is_zero(resolved.intro_node_id@) {
            errors::is_handshake(
                r,
                "hs_fetch: descriptor lacks intro_node_id; cannot target HS"@,
            )
        } else {
            r matches Ok(v) && v@.len() == specs@.len() && (specs@.len() > 0 ==> v@.drop_last()
                == specs@.drop_last() && is_way_in(v@.last(), specs@.last(), *resolved))
        },
{
    let zero: [u8; 32] = [0u8; 32];
    if bytes_eq(&resolved.intro_node_id, &zero) {
        assert(is_zero(resolved.intro_node_id@));
        return Err(
            Error::Handshake(
                "hs_fetch: descriptor lacks intro_node_id; cannot target HS".to_owned(),
            ),
        );
    }
    assert(!is_zero(resolved.intro_node_id@)) by {
        if is_zero(resolved.intro_node_id@) {
            assert(resolved.intro_node_id@ =~= zero@);
        }
    }
    let ghost before = specs@;
    match specs.pop() {
        None => Ok(specs),
        Some(last) => {
            let host: String = match &resolved.intro_host {
                Some(h) => h.clone(),
                None => last.host,
            };
            let port: u16 = match resolved.intro_port {
                Some(p) => p,
                None => last.port,
            };
            specs.push(
                LinkSpec {
                    host,
                    port,
                    node_id: resolved.intro_node_id,
                    static_pub: resolved.intro_pub,
                },
            );
            assert(specs@.drop_last() =~= before.drop_last());
            Ok(specs)
        },
    }
}

/// Where a fetch from a hidden service can fail.
#[derive(Debug, Clone, Copy, PartialEq, Eq, Structural)]
pub enum FetchStage {
    /// The client is not authorized.
    Authorization,
    /// The circuit to the rendezvous point.
    RpCircuit,
    /// The rendezvous circuit has no hops.
    RpPath,
    /// No path leads past the service's own relay.
    IntroPath,
    /// A relay on the introduction path has a malformed key.
    IntroSpecs,
    /// The descriptor does not say where the way in is.
    WayIn,
    /// The circuit to the introduction point.
    IntroCircuit,
    /// The rendezvous point.
    Establish,
    /// The introduction.
    Introduce,
    /// The wait for the service was given up.
    Canceled,
    /// The service did not answer in time.
    TimedOut,
}

/// What is said of a failure at a stage, with the cause `e`.
pub open spec fn stage_text(s: FetchStage, e: Seq<char>) -> Seq<char> {
    match s {
        FetchStage::Authorization => "hs_fetch: not authorized for this client-auth service"@,
        FetchStage::RpCircuit => "hs_fetch: build RP circuit: "@ + e,
        FetchStage::RpPath => "hs_fetch: empty RP path"@,
        FetchStage::IntroPath =>
            "hs_fetch: intro path selection: no path avoids routing through the service's own relay — the network needs more relays"@,
        FetchStage::IntroSpecs => "hs_fetch: intro link specs: "@ + e,
        FetchStage::WayIn => "hs_fetch: descriptor lacks intro_node_id; cannot target HS"@,
        FetchStage::IntroCircuit => "hs_fetch: build intro circuit: "@ + e,
        FetchStage::Establish => "hs_fetch: establish_rendezvous: "@ + e,
        FetchStage::Introduce => "hs_fetch: send_introduce1: "@ + e,
        FetchStage::Canceled => "hs_fetch: rendezvous waiter canceled"@,
        FetchStage::TimedOut => "hs_fetch: timed out waiting for RENDEZVOUS2"@,
    }
}

/// What a failed fetch leaves to be done.
#[derive(Debug)]
pub struct FetchFailure {
    /// What is reported.
    pub error: Error,
    /// The rendezvous circuit is to be torn down.
    pub drop_rp: bool,
    /// The introduction circuit is to be torn down.
    pub drop_intro: bool,
    /// The wait for the service is to be given up.
    pub drop_waiter: bool,
}

/// The rendezvous circuit stands when a fetch fails at the stage.
pub open spec fn rp_stands(s: FetchStage) -> bool {
    !(s is Authorization || s is RpCircuit || s is RpPath)
}

/// The introduction circuit stands when a fetch fails at the stage.
pub open spec fn intro_stands(s: FetchStage) -> bool {
    s is Establish || s is Introduce
}

/// The service is awaited when a fetch fails at the stage.
pub open spec fn waiter_stands(s: FetchStage) -> bool {
    s is Introduce || s is TimedOut
}

/// What to report and to clean up when a fetch fails at a stage, with the cause `e`.
pub fn fetch_failure(stage: FetchStage, e: &str) -> (r: FetchFailure)
    ensures
        r.error matches Error::Handshake(m) && m@ == stage_text(stage, e@),
        r.drop_rp == rp_stands(stage),
        r.drop_intro == intro_stands(stage),
        r.drop_waiter == waiter_stands(stage),
{
    let text: String = match stage {
        FetchStage::Authorization =>
            "hs_fetch: not authorized for this client-auth service".to_owned(),
        FetchStage::RpCircuit => join2("hs_fetch: build RP circuit: ", e),
        FetchStage::RpPath => "hs_fetch: empty RP path".to_owned(),
        FetchStage::IntroPath =>
            "hs_fetch: intro path selection: no path avoids routing through the service's own relay — the network needs more relays".to_owned(),
        FetchStage::IntroSpecs => join2("hs_fetch: intro link specs: ", e),
        FetchStage::WayIn =>
            "hs_fetch: descriptor lacks intro_node_id; cannot target HS".to_owned(),
        FetchStage::IntroCircuit => join2("hs_fetch: build intro circuit: ", e),
        FetchStage::Establish => join2("hs_fetch: establish_rendezvous: ", e),
        FetchStage::Introduce => join2("hs_fetch: send_introduce1: ", e),
        FetchStage::Canceled => "hs_fetch: rendezvous waiter canceled".to_owned(),
        FetchStage::TimedOut => "hs_fetch: timed out waiting for RENDEZVOUS2".to_owned(),
    };
    let drop_rp: bool = match stage {
        FetchStage::Authorization | FetchStage::RpCircuit | FetchStage::RpPath => false,
        _ => true,
    };
    let drop_intro: bool = match stage {
        FetchStage::Establish | FetchStage::Introduce => true,
        _ => false,
    };
    let drop_waiter: bool = match stage {
        FetchStage::Introduce | FetchStage::TimedOut => true,
        _ => false,
    };
    FetchFailure { error: Error::Handshake(text), drop_rp, drop_intro, drop_waiter }
}

/// What to do next while a circuit is built.
#[derive(Debug)]
pub enum BuildStep {
    /// Dial the guard.
    Dial,
    /// Open the circuit with the guard.
    Start,
    /// Extend the circuit to the hop with this number.
    Extend(usize),
    /// Look again after so many milliseconds.
    Wait(u64),
    /// The circuit stands.
    Finish,
    /// Give up.
    Fail(Error),
}

/// `r` gives up with the error `Handshake` and the text `m`.
pub open spec fn build_fails(r: BuildStep, m: Seq<char>) -> bool {
    r matches BuildStep::Fail(Error::Handshake(x)) && x@ == m
}

/// `r` is the verdict on a path of `n` hops, where at most `max` are allowed.
pub fn check_path_length(n: usize, max: usize) -> (r: Result<(), Error>)
    ensures
        if 1 <= n <= max {
            r is Ok
        } else {
            errors::is_handshake(
                r,
                "build_circuit: path length "@ + text::decimal(n as nat) + " out of range [1,"@
                    + text::decimal(max as nat) + "]"@,
            )
        },
{
    if n >= 1 && n <= max {
        return Ok(());
    }
    let a: String = decimal_string(n as u64);
    let b: String = decimal_string(max as u64);
    let t: String = join3("build_circuit: path length ", a.as_str(), " out of range [1,");
    let t: String = join3(t.as_str(), b.as_str(), "]");
    Err(Error::Handshake(t))
}

/// The address of a hop.
pub open spec fn hop_address(l: LinkSpec) -> Seq<char> {
    l.host@ + ":"@ + text::decimal(l.port as nat)
}

/// `r` is the step towards a link with the guard `g`: a guard that is not linked is
/// dialled once, and has to be the node that the path names.
pub open spec fn guard_does(
    r: BuildStep,
    g: LinkSpec,
    linked: bool,
    dialled: Option<Result<(), Seq<char>>>,
) -> bool {
    match dialled {
        Some(Err(e)) => build_fails(
            r,
            "build_circuit: dial guard "@ + hop_address(g) + " failed: "@ + e,
        ),
        _ => if linked {
            r is Start
        } else if dialled is None {
            r is Dial
        } else {
            build_fails(
                r,
                "build_circuit: guard "@ + text::hex_of(g.node_id@.take(6)) + " ("@ + hop_address(g)
                    + ") answered with a different identity"@,
            )
        },
    }
}

fn address_of(l: &LinkSpec) -> (r: String)
    ensures
        r@ == hop_address(*l),
{
    let p: String = decimal_string(l.port as u64);
    join3(l.host.as_str(), ":", p.as_str())
}

/// The step towards a link with the guard. `dialled` is what became of the dial, if
/// one was made.
pub fn guard_step(guard: &LinkSpec, linked: bool, dialled: Option<Result<(), String>>) -> (r:
    BuildStep)
    ensures
        guard_does(
            r,
            *guard,
            linked,
            match dialled {
                Some(Ok(_)) => Some(Ok(())),
                Some(Err(e)) => Some(Err(e@)),
                None => None,
            },
        ),
{
    match dialled {
        Some(Err(e)) => {
            let a: String = address_of(guard);
            let t: String = join3("build_circuit: dial guard ", a.as_str(), " failed: ");
            BuildStep::Fail(Error::Handshake(join2(t.as_str(), e.as_str())))
        },
        Some(Ok(_)) => {
            if linked {
                return BuildStep::Start;
            }
            let head: Vec<u8> = copy_range(&guard.node_id, 0, 6);
            assert(head@ =~= guard.node_id@.take(6));
            let h: String = hex_encode(&head);
            let a: String = address_of(guard);
            let t: String = join3("build_circuit: guard ", h.as_str(), " (");
            let t: String = join3(
                t.as_str(),
                a.as_str(),
                ") answered with a different identity",
            );
            BuildStep::Fail(Error::Handshake(t))
        },
        None => if linked {
            BuildStep::Start
        } else {
            BuildStep::Dial
        },
    }
}

/// `r` is the step of a circuit along a path of `n` hops whose hop `i` was asked for
/// last. `hops` is the number of hops that stand, if the circuit is known; `late` says
/// that the wait for the hop is over.
pub open spec fn hop_does(r: BuildStep, n: usize, i: usize, hops: Option<usize>, late: bool) -> bool {
    if hops matches Some(h) && h >= i + 1 {
        if i + 1 >= n {
            r is Finish
        } else {
            r == BuildStep::Extend((i + 1) as usize)
        }
    } else if late {
        if i == 0 {
            build_fails(r, "circuit: CREATE timed out"@)
        } else {
            build_fails(r, "circuit: EXTEND to hop "@ + text::decimal(i as nat) + " timed out"@)
        }
    } else {
        r == BuildStep::Wait(BUILD_POLL_MILLIS)
    }
}

/// The step of a circuit that is being built.
pub fn hop_step(n: usize, i: usize, hops: Option<usize>, late: bool) -> (r: BuildStep)
    requires
        i < n,
    ensures
        hop_does(r, n, i, hops, late),
{
    let stands: bool = match hops {
        Some(h) => h >= i + 1,
        None => false,
    };
    if stands {
        if i + 1 >= n {
            return BuildStep::Finish;
        }
        return BuildStep::Extend(i + 1);
    }
    if !late {
        return BuildStep::Wait(BUILD_POLL_MILLIS);
    }
    if i == 0 {
        return BuildStep::Fail(Error::Handshake("circuit: CREATE timed out".to_owned()));
    }
    let k: String = decimal_string(i as u64);
    BuildStep::Fail(
        Error::Handshake(join3("circuit: EXTEND to hop ", k.as_str(), " timed out")),
    )
}

/// A circuit is finished only when every hop of its path stands.
pub proof fn law_finished_circuits_are_complete(
    r: BuildStep,
    n: usize,
    i: usize,
    hops: Option<usize>,
    late: bool,
)
    requires
        i < n,
        hop_does(r, n, i, hops, late),
        r is Finish,
    ensures
        hops matches Some(h) && h >= n,
{
}

/// The part that a hop plays on a path of `n`.
pub open spec fn role_text(i: int, n: int) -> Seq<char> {
    if n == 1 {
        "single"@
    } else if i == 0 {
        "guard"@
    } else if i == n - 1 {
        "exit"@
    } else {
        "middle"@
    }
}

/// The part that the hop `i` plays on a path of `n`.
pub fn hop_role(i: usize, n: usize) -> (r: &'static str)
    requires
        i < n,
    ensures
        r@ == role_text(i as int, n as int),
{
    if n == 1 {
        "single"
    } else if i == 0 {
        "guard"
    } else if i == n - 1 {
        "exit"
    } else {
        "middle"
    }
}

/// The shortest pause of the padding pump, in nanoseconds.
pub const PUMP_MIN_NANOS: u64 = 50_000_000;

/// The longest pause of the padding pump, in nanoseconds: it bounds how long the pump
/// outlives its circuit.
pub const PUMP_MAX_NANOS: u64 = 5_000_000_000;

/// What the padding pump of a circuit does.
#[derive(Debug, Clone, Copy, PartialEq, Eq, Structural)]
pub enum PumpAction {
    /// Pause for so many nanoseconds.
    Sleep(u64),
    /// Send a padding cell.
    Emit,
    /// Stop.
    Stop,
}

/// What the padding pump does after the scheduler's decision. A circuit without
/// padding is looked at again later, since its scheduler can be replaced.
pub fn pump_step(unpadded: bool, decision: PadDecision) -> (r: PumpAction)
    ensures
        r == if unpadded {
            PumpAction::Sleep(PUMP_MAX_NANOS)
        } else {
            match decision {
                PadDecision::Never => PumpAction::Stop,
                PadDecision::Now => PumpAction::Emit,
                PadDecision::SleepFor(d) => PumpAction::Sleep(
                    if d < PUMP_MIN_NANOS {
                        PUMP_MIN_NANOS
                    } else if d > PUMP_MAX_NANOS {
                        PUMP_MAX_NANOS
                    } else {
                        d
                    },
                ),
            }
        },
{
    if unpadded {
        return PumpAction::Sleep(PUMP_MAX_NANOS);
    }
    match decision {
        PadDecision::Never => PumpAction::Stop,
        PadDecision::Now => PumpAction::Emit,
        PadDecision::SleepFor(d) => PumpAction::Sleep(
            if d < PUMP_MIN_NANOS {
                PUMP_MIN_NANOS
            } else if d > PUMP_MAX_NANOS {
                PUMP_MAX_NANOS
            } else {
                d
            },
        ),
    }
}

/// The path of a circuit to or from a hidden service, and the vanguard that its
/// second hop is, if it is one.
#[derive(Debug)]
pub struct HsPath {
    /// The path.
    pub path: Vec<LinkSpec>,
    /// The identifier of the vanguard on it.
    pub vanguard: Option<String>,
}

/// `after` is `before` after the hop was offered as a vanguard.
pub open spec fn hop_offered(
    before: Seq<VanguardEntry>,
    hop: LinkSpec,
    now: u64,
    after: Seq<VanguardEntry>,
) -> bool {
    exists|r: bool| #[trigger]
        vanguards::offered(
            before,
            text::hex_of(hop.node_id@),
            hop.host@,
            hop.port,
            text::hex_of(hop.static_pub@),
            now,
            after,
            r,
        )
}

/// The vanguard can be dialled: its keys can be read and it is linked.
pub open spec fn vanguard_ready(v: VanguardEntry, linked: Seq<[u8; 32]>) -> bool {
    rotation::id_in(v.node_id_hex@) is Some && rotation::id_in(v.static_pub_hex@) is Some
        && is_linked(linked, rotation::id_in(v.node_id_hex@)->0)
}

/// The node with the identifier is among the linked ones.
pub open spec fn is_linked(linked: Seq<[u8; 32]>, id: Seq<u8>) -> bool {
    exists|i: int| 0 <= i < linked.len() && #[trigger] linked[i]@ == id
}

/// The keys of the vanguard can be read, but it is not linked.
pub open spec fn vanguard_away(v: VanguardEntry, linked: Seq<[u8; 32]>) -> bool {
    rotation::id_in(v.node_id_hex@) is Some && rotation::id_in(v.static_pub_hex@) is Some
        && !is_linked(linked, rotation::id_in(v.node_id_hex@)->0)
}

/// `l` is the hop at the vanguard `v`.
pub open spec fn is_hop_at(l: LinkSpec, v: VanguardEntry) -> bool {
    &&& l.host@ == v.host@
    &&& l.port == v.port
    &&& Some(l.node_id@) == rotation::id_in(v.node_id_hex@)
    &&& Some(l.static_pub@) == rotation::id_in(v.static_pub_hex@)
}

/// `r` is the path that `candidate` becomes with the vanguard `pick`, and `after` what
/// becomes of the vanguards `before`. A path of fewer than two hops is left as it is. A
/// vanguard that is ready takes the second hop's place. Otherwise the second hop stays,
/// and is offered as a vanguard for the next time.
pub open spec fn placed(
    r: HsPath,
    candidate: Seq<LinkSpec>,
    pick: Option<VanguardEntry>,
    linked: Seq<[u8; 32]>,
    now: u64,
    before: Seq<VanguardEntry>,
    after: Seq<VanguardEntry>,
) -> bool {
    if candidate.len() < 2 {
        r.path@ == candidate && r.vanguard is None && after == before
    } else {
        match pick {
            Some(v) => if vanguard_ready(v, linked) {
                &&& r.path@.len() == candidate.len()
                &&& is_hop_at(r.path@[1], v)
                &&& forall|i: int|
                    0 <= i < candidate.len() && i != 1 ==> #[trigger] r.path@[i] == candidate[i]
                &&& r.vanguard matches Some(id) && id@ == v.node_id_hex@
                &&& after == before
            } else {
                &&& r.path@ == candidate
                &&& r.vanguard is None
                &&& if vanguard_away(v, linked) {
                    exists|mid: Seq<VanguardEntry>| #[trigger]
                        vanguards::unreachable_recorded(before, mid, v.node_id_hex@, now)
                            && hop_offered(mid, candidate[1], now, after)
                } else {
                    hop_offered(before, candidate[1], now, after)
                }
            },
            None => r.path@ == candidate && r.vanguard is None && hop_offered(
                before,
                candidate[1],
                now,
                after,
            ),
        }
    }
}

fn offer_hop(vanguards: &mut Vanguards, hop: &LinkSpec, now: u64)
    ensures
        hop_offered(old(vanguards).entries@, *hop, now, final(vanguards).entries@),
{
    let id: String = hex_encode(&hop.node_id);
    let key: String = hex_encode(&hop.static_pub);
    let ghost before = vanguards.entries@;
    let r: bool = vanguards.add_candidate_at(
        id.as_str(),
        hop.host.as_str(),
        hop.port,
        key.as_str(),
        now,
    );
    assert(vanguards::offered(
        before,
        text::hex_of(hop.node_id@),
        hop.host@,
        hop.port,
        text::hex_of(hop.static_pub@),
        now,
        vanguards.entries@,
        r,
    ));
}

fn in_linked(linked: &[[u8; 32]], id: &[u8; 32]) -> (r: bool)
    ensures
        r == is_linked(linked@, id@),
{
    let mut i: usize = 0;
    while i < linked.len()
        invariant
            i <= linked@.len(),
            forall|j: int| 0 <= j < i ==> #[trigger] linked@[j]@ != id@,
        decreases linked@.len() - i,
    {
        if bytes_eq(&linked[i], id) {
            return true;
        }
        i += 1;
    }
    false
}

/// Puts the vanguard `pick` into a path; see [`placed`].
pub fn place_vanguard(
    vanguards: &mut Vanguards,
    mut candidate: Vec<LinkSpec>,
    pick: Option<VanguardEntry>,
    linked: &[[u8; 32]],
    now: u64,
) -> (r: HsPath)
    ensures
        placed(
            r,
            candidate@,
            pick,
            linked@,
            now,
            old(vanguards).entries@,
            final(vanguards).entries@,
        ),
{
    let ghost before = vanguards.entries@;
    if candidate.len() < 2 {
        return HsPath { path: candidate, vanguard: None };
    }
    if let Some(v) = pick {
        let ghost v0 = v;
        match (parse_id(v.node_id_hex.as_str()), parse_id(v.static_pub_hex.as_str())) {
            (Some(node_id), Some(static_pub)) => {
                if in_linked(linked, &node_id) {
                    let ghost c0 = candidate@;
                    candidate.set(
                        1,
                        LinkSpec { host: v.host, port: v.port, node_id, static_pub },
                    );
                    return HsPath { path: candidate, vanguard: Some(v.node_id_hex) };
                }
                assert(vanguard_away(v0, linked@));
                vanguards.mark_unreachable_at(v.node_id_hex.as_str(), now);
                let ghost mid = vanguards.entries@;
                offer_hop(vanguards, &candidate[1], now);
                assert(vanguards::unreachable_recorded(before, mid, v0.node_id_hex@, now)
                    && hop_offered(mid, candidate@[1], now, vanguards.entries@));
                return HsPath { path: candidate, vanguard: None };
            },
            _ => {},
        }
    }
    offer_hop(vanguards, &candidate[1], now);
    HsPath { path: candidate, vanguard: None }
}

/// Plans a circuit to or from a hidden service: the second hop is the vanguard that
/// the set picks, if it is ready.
pub fn plan_hs_path(
    vanguards: &mut Vanguards,
    candidate: Vec<LinkSpec>,
    linked: &[[u8; 32]],
    now: u64,
) -> (r: HsPath)
    ensures
        exists|pick: Option<VanguardEntry>|
            vanguards::picked(old(vanguards).entries@, now, pick) && #[trigger] placed(
                r,
                candidate@,
                pick,
                linked@,
                now,
                old(vanguards).entries@,
                final(vanguards).entries@,
            ),
{
    let pick: Option<VanguardEntry> = vanguards.pick_layer2_at(now);
    let ghost p = pick;
    let ghost before = vanguards.entries@;
    let ghost c = candidate@;
    let r: HsPath = place_vanguard(vanguards, candidate, pick, linked, now);
    assert(placed(r, c, p, linked@, now, before, vanguards.entries@));
    r
}

/// Records what became of a circuit through a vanguard.
pub fn vanguard_outcome(vanguards: &mut Vanguards, node_id_hex: &str, built: bool, now: u64)
    ensures
        if built {
            vanguards::used_recorded(
                old(vanguards).entries@,
                final(vanguards).entries@,
                node_id_hex@,
                now,
            )
        } else {
            vanguards::unreachable_recorded(
                old(vanguards).entries@,
                final(vanguards).entries@,
                node_id_hex@,
                now,
            )
        },
{
    if built {
        vanguards.mark_used_at(node_id_hex, now);
    } else {
        vanguards.mark_unreachable_at(node_id_hex, now);
    }
}

/// Only the second hop of a path is ever replaced: its guard and its end stay.
pub proof fn law_vanguards_keep_both_ends(
    r: HsPath,
    candidate: Seq<LinkSpec>,
    pick: Option<VanguardEntry>,
    linked: Seq<[u8; 32]>,
    now: u64,
    before: Seq<VanguardEntry>,
    after: Seq<VanguardEntry>,
)
    requires
        candidate.len() >= 3,
        placed(r, candidate, pick, linked, now, before, after),
    ensures
        r.path@.len() == candidate.len(),
        r.path@[0] == candidate[0],
        r.path@.last() == candidate.last(),
{
    assert(r.path@[0] == candidate[0]);
    assert(r.path@[candidate.len() - 1] == candidate[candidate.len() - 1]);
}

/// The peer can be a hop: it is not this node, and its key can be read.
pub open spec fn can_be_hop(p: PeerInfo, me: Seq<u8>) -> bool {
    p.node_id@ != me && rotation::id_in(p.static_pub@) is Some
}

/// A chosen peer is in the subnet of `p`.
pub open spec fn subnet_used(c: Seq<PeerInfo>, chosen: Seq<int>, p: PeerInfo) -> bool {
    exists|i: int|
        0 <= i < chosen.len() && onion::subnet16_of(c[#[trigger] chosen[i]].host@)
            == onion::subnet16_of(p.host@)
}

/// A chosen peer is the node `p`.
pub open spec fn node_used(c: Seq<PeerInfo>, chosen: Seq<int>, p: PeerInfo) -> bool {
    exists|i: int| 0 <= i < chosen.len() && c[#[trigger] chosen[i]].node_id@ == p.node_id@
}

/// The peers that are chosen among the first `k` for their different subnets.
pub open spec fn by_subnet(c: Seq<PeerInfo>, me: Seq<u8>, n: nat, k: int) -> Seq<int>
    decreases k,
{
    if k <= 0 {
        Seq::empty()
    } else {
        let chosen = by_subnet(c, me, n, k - 1);
        let p = c[k - 1];
        if chosen.len() < n && can_be_hop(p, me) && !subnet_used(c, chosen, p) {
            chosen.push(k - 1)
        } else {
            chosen
        }
    }
}

/// The peers that are chosen when `start` is filled up with other nodes among the
/// first `k`.
pub open spec fn filled_up(c: Seq<PeerInfo>, me: Seq<u8>, n: nat, start: Seq<int>, k: int) -> Seq<int>
    decreases k,
{
    if k <= 0 {
        start
    } else {
        let chosen = filled_up(c, me, n, start, k - 1);
        let p = c[k - 1];
        if chosen.len() < n && can_be_hop(p, me) && !node_used(c, chosen, p) {
            chosen.push(k - 1)
        } else {
            chosen
        }
    }
}

/// The peers that make up a path of at most `n` hops: those of different subnets
/// first, then any other nodes.
pub open spec fn chosen_hops(c: Seq<PeerInfo>, me: Seq<u8>, n: nat) -> Seq<int> {
    filled_up(c, me, n, by_subnet(c, me, n, c.len() as int), c.len() as int)
}

/// `l` is the hop at the peer `p`.
pub open spec fn is_peer_hop(l: LinkSpec, p: PeerInfo) -> bool {
    l.host@ == p.host@ && l.port == p.port && l.node_id@ == p.node_id@ && Some(l.static_pub@)
        == rotation::id_in(p.static_pub@)
}

/// The `i`-th hop of `path` is at the `i`-th chosen peer.
pub open spec fn hop_at(path: Seq<LinkSpec>, c: Seq<PeerInfo>, chosen: Seq<int>, i: int) -> bool {
    0 <= chosen[i] < c.len() && is_peer_hop(path[i], c[chosen[i]])
}

/// `path` has the hops at the chosen peers.
pub open spec fn hops_at(path: Seq<LinkSpec>, c: Seq<PeerInfo>, chosen: Seq<int>) -> bool {
    path.len() == chosen.len() && forall|i: int|
        0 <= i < path.len() ==> #[trigger] hop_at(path, c, chosen, i)
}

fn peer_hop(p: &PeerInfo, me: &[u8; 32]) -> (r: Option<LinkSpec>)
    ensures
        r is Some == can_be_hop(*p, me@),
        r matches Some(l) ==> is_peer_hop(l, *p),
{
    if bytes_eq(&p.node_id, me) {
        return None;
    }
    match parse_id(p.static_pub.as_str()) {
        Some(static_pub) => Some(
            LinkSpec { host: p.host.clone(), port: p.port, node_id: p.node_id, static_pub },
        ),
        None => None,
    }
}

fn in_subnets(subnets: &[[u8; 2]], s: &[u8; 2]) -> (r: bool)
    ensures
        r == exists|i: int| 0 <= i < subnets@.len() && #[trigger] subnets@[i]@ == s@,
{
    let mut i: usize = 0;
    while i < subnets.len()
        invariant
            i <= subnets@.len(),
            forall|j: int| 0 <= j < i ==> #[trigger] subnets@[j]@ != s@,
        decreases subnets@.len() - i,
    {
        if bytes_eq(&subnets[i], s) {
            return true;
        }
        i += 1;
    }
    false
}

fn on_path(path: &[LinkSpec], id: &[u8; 32]) -> (r: bool)
    ensures
        r == exists|i: int| 0 <= i < path@.len() && (#[trigger] path@[i]).node_id@ == id@,
{
    let mut i: usize = 0;
    while i < path.len()
        invariant
            i <= path@.len(),
            forall|j: int| 0 <= j < i ==> (#[trigger] path@[j]).node_id@ != id@,
        decreases path@.len() - i,
    {
        if bytes_eq(&path[i].node_id, id) {
            return true;
        }
        i += 1;
    }
    false
}

proof fn lemma_subnet_bounds(c: Seq<PeerInfo>, me: Seq<u8>, n: nat, k: int)
    requires
        0 <= k <= c.len(),
    ensures
        by_subnet(c, me, n, k).len() <= n,
        forall|i: int|
            0 <= i < by_subnet(c, me, n, k).len() ==> 0 <= #[trigger] by_subnet(c, me, n, k)[i] < k
                && can_be_hop(c[by_subnet(c, me, n, k)[i]], me),
        forall|i: int, j: int|
            0 <= i < j < by_subnet(c, me, n, k).len() ==> onion::subnet16_of(
                c[#[trigger] by_subnet(c, me, n, k)[i]].host@,
            ) != onion::subnet16_of(c[#[trigger] by_subnet(c, me, n, k)[j]].host@),
    decreases k,
{
    if k > 0 {
        lemma_subnet_bounds(c, me, n, k - 1);
    }
}

fn choose_by_subnet(cands: &[PeerInfo], me: &[u8; 32], n: usize) -> (r: Vec<LinkSpec>)
    ensures
        hops_at(r@, cands@, by_subnet(cands@, me@, n as nat, cands@.len() as int)),
{
    let mut out: Vec<LinkSpec> = Vec::new();
    let mut subnets: Vec<[u8; 2]> = Vec::new();
    let mut k: usize = 0;
    let ghost c = cands@;
    while k < cands.len()
        invariant
            k <= c.len(),
            c == cands@,
            hops_at(out@, c, by_subnet(c, me@, n as nat, k as int)),
            subnets@.len() == out@.len(),
            forall|i: int|
                0 <= i < subnets@.len() ==> #[trigger] subnets@[i]@ == onion::subnet16_of(
                    c[by_subnet(c, me@, n as nat, k as int)[i]].host@,
                ),
        decreases c.len() - k,
    {
        let ghost chosen = by_subnet(c, me@, n as nat, k as int);
        proof {
            lemma_subnet_bounds(c, me@, n as nat, k as int);
        }
        let p: &PeerInfo = &cands[k];
        let sn: [u8; 2] = subnet16(p.host.as_str());
        if out.len() < n {
            let used: bool = in_subnets(&subnets, &sn);
            assert(used == subnet_used(c, chosen, *p)) by {
                if used {
                    let i = choose|i: int| 0 <= i < subnets@.len() && #[trigger] subnets@[i]@ == sn@;
                    assert(onion::subnet16_of(c[chosen[i]].host@) == onion::subnet16_of(p.host@));
                }
                if subnet_used(c, chosen, *p) {
                    let i = choose|i: int|
                        0 <= i < chosen.len() && onion::subnet16_of(c[#[trigger] chosen[i]].host@)
                            == onion::subnet16_of(p.host@);
                    assert(subnets@[i]@ == sn@);
                }
            }
            if !used {
                if let Some(l) = peer_hop(p, me) {
                    let ghost before = out@;
                    subnets.push(sn);
                    out.push(l);
                    proof {
                        lemma_hop_added(before, c, chosen, l, k as int);
                    }
                }
            }
        }
        k += 1;
    }
    out
}

/// Chooses a path of at most `n` hops among the candidates, in their order; see
/// [`chosen_hops`]. Callers shuffle the candidates, so that the path cannot be
/// foreseen.
pub fn com_circuit_path(cands: &[PeerInfo], me: &[u8; 32], n: usize) -> (r: Vec<LinkSpec>)
    ensures
        hops_at(r@, cands@, chosen_hops(cands@, me@, n as nat)),
{
    let mut out: Vec<LinkSpec> = choose_by_subnet(cands, me, n);
    let ghost c = cands@;
    let ghost start = by_subnet(c, me@, n as nat, c.len() as int);
    let mut k: usize = 0;
    while k < cands.len()
        invariant
            k <= c.len(),
            c == cands@,
            hops_at(out@, c, filled_up(c, me@, n as nat, start, k as int)),
        decreases c.len() - k,
    {
        let ghost chosen = filled_up(c, me@, n as nat, start, k as int);
        let ghost before = out@;
        let p: &PeerInfo = &cands[k];
        if out.len() < n {
            let used: bool = on_path(&out, &p.node_id);
            assert(used == node_used(c, chosen, *p)) by {
                if used {
                    let i = choose|i: int|
                        0 <= i < out@.len() && (#[trigger] out@[i]).node_id@ == p.node_id@;
                    assert(hop_at(out@, c, chosen, i));
                    assert(c[chosen[i]].node_id@ == p.node_id@);
                }
                if node_used(c, chosen, *p) {
                    let i = choose|i: int|
                        0 <= i < chosen.len() && c[#[trigger] chosen[i]].node_id@ == p.node_id@;
                    assert(hop_at(out@, c, chosen, i));
                    assert(out@[i].node_id@ == p.node_id@);
                }
            }
            if !used {
                if let Some(l) = peer_hop(p, me) {
                    out.push(l);
                    proof {
                        lemma_hop_added(before, c, chosen, l, k as int);
                    }
                }
            }
        }
        k += 1;
    }
    out
}

proof fn lemma_hop_added(path: Seq<LinkSpec>, c: Seq<PeerInfo>, chosen: Seq<int>, l: LinkSpec, k: int)
    requires
        hops_at(path, c, chosen),
        0 <= k < c.len(),
        is_peer_hop(l, c[k]),
    ensures
        hops_at(path.push(l), c, chosen.push(k)),
{
    let p = path.push(l);
    let q = chosen.push(k);
    assert forall|i: int| 0 <= i < p.len() implies #[trigger] hop_at(p, c, q, i) by {
        if i < path.len() {
            assert(hop_at(path, c, chosen, i));
        }
    }
}

proof fn lemma_fill(c: Seq<PeerInfo>, me: Seq<u8>, n: nat, start: Seq<int>, k: int)
    requires
        0 <= k <= c.len(),
        start.len() <= n,
        forall|i: int| 0 <= i < start.len() ==> 0 <= #[trigger] start[i] < c.len(),
        forall|i: int, j: int|
            0 <= i < j < start.len() ==> c[#[trigger] start[i]].node_id@ != c[#[trigger] start[j]].node_id@,
        forall|i: int| 0 <= i < start.len() ==> can_be_hop(c[#[trigger] start[i]], me),
    ensures
        ({
            let f = filled_up(c, me, n, start, k);
            &&& start.len() <= f.len() <= n
            &&& f.take(start.len() as int) == start
            &&& forall|i: int|
                0 <= i < f.len() ==> 0 <= #[trigger] f[i] < c.len() && can_be_hop(c[f[i]], me)
            &&& forall|i: int, j: int|
                0 <= i < j < f.len() ==> c[#[trigger] f[i]].node_id@ != c[#[trigger] f[j]].node_id@
            &&& f.len() < n ==> forall|j: int|
                0 <= j < k && can_be_hop(c[j], me) ==> #[trigger] node_used(c, f, c[j])
        }),
    decreases k,
{
    let f = filled_up(c, me, n, start, k);
    if k > 0 {
        lemma_fill(c, me, n, start, k - 1);
        let g = filled_up(c, me, n, start, k - 1);
        let p = c[k - 1];
        assert forall|i: int, j: int| 0 <= i < j < f.len() implies c[#[trigger] f[i]].node_id@
            != c[#[trigger] f[j]].node_id@ by {
            assert(f[i] == g[i]);
            if j == g.len() {
                if c[g[i]].node_id@ == p.node_id@ {
                    assert(node_used(c, g, p));
                }
            } else {
                assert(f[j] == g[j]);
            }
        }
        assert(f.take(start.len() as int) =~= start) by {
            assert(g.take(start.len() as int) =~= start);
            assert forall|i: int| 0 <= i < start.len() implies f[i] == start[i] by {
                assert(g.take(start.len() as int)[i] == start[i]);
            }
        }
        if f.len() < n {
            assert forall|j: int| 0 <= j < k && can_be_hop(c[j], me) implies #[trigger] node_used(
                c,
                f,
                c[j],
            ) by {
                if j < k - 1 {
                    assert(node_used(c, g, c[j]));
                    let i = choose|i: int|
                        0 <= i < g.len() && c[#[trigger] g[i]].node_id@ == c[j].node_id@;
                    assert(f[i] == g[i]);
                } else if !node_used(c, g, p) {
                    assert(f[f.len() - 1] == k - 1);
                } else {
                    assert(f == g);
                }
            }
        }
    } else {
        assert(f.take(start.len() as int) =~= start);
    }
}

/// A path that is chosen among distinct peers visits no node twice and never this
/// node, is no longer than asked for, and is shorter only when every peer that can be
/// a hop is on it.
pub proof fn law_paths_are_filled_with_distinct_nodes(c: Seq<PeerInfo>, me: Seq<u8>, n: nat)
    requires
        forall|i: int, j: int|
            0 <= i < j < c.len() ==> (#[trigger] c[i]).node_id@ != (#[trigger] c[j]).node_id@,
    ensures
        ({
            let f = chosen_hops(c, me, n);
            &&& f.len() <= n
            &&& forall|i: int|
                0 <= i < f.len() ==> 0 <= #[trigger] f[i] < c.len() && can_be_hop(c[f[i]], me)
            &&& forall|i: int, j: int|
                0 <= i < j < f.len() ==> c[#[trigger] f[i]].node_id@ != c[#[trigger] f[j]].node_id@
            &&& f.len() < n ==> forall|j: int|
                0 <= j < c.len() && can_be_hop(c[j], me) ==> #[trigger] node_used(c, f, c[j])
        }),
{
    let s = by_subnet(c, me, n, c.len() as int);
    lemma_subnet_bounds(c, me, n, c.len() as int);
    assert forall|i: int, j: int| 0 <= i < j < s.len() implies c[#[trigger] s[i]].node_id@
        != c[#[trigger] s[j]].node_id@ by {
        if s[i] == s[j] {
            assert(onion::subnet16_of(c[s[i]].host@) != onion::subnet16_of(c[s[j]].host@));
        } else if s[i] < s[j] {
            assert(c[s[i]].node_id@ != c[s[j]].node_id@);
        } else {
            assert(c[s[j]].node_id@ != c[s[i]].node_id@);
        }
    }
    lemma_fill(c, me, n, s, c.len() as int);
}

/// When peers of enough different subnets are there, no two hops of the path share a
/// subnet.
pub proof fn law_paths_prefer_different_subnets(c: Seq<PeerInfo>, me: Seq<u8>, n: nat, i: int, j: int)
    requires
        by_subnet(c, me, n, c.len() as int).len() == n,
        0 <= i < j < chosen_hops(c, me, n).len(),
    ensures
        onion::subnet16_of(c[chosen_hops(c, me, n)[i]].host@) != onion::subnet16_of(
            c[chosen_hops(c, me, n)[j]].host@,
        ),
{
    let s = by_subnet(c, me, n, c.len() as int);
    lemma_subnet_bounds(c, me, n, c.len() as int);
    lemma_full(c, me, n, s, c.len() as int);
    assert(s[i] == chosen_hops(c, me, n)[i] && s[j] == chosen_hops(c, me, n)[j]);
}

proof fn lemma_full(c: Seq<PeerInfo>, me: Seq<u8>, n: nat, start: Seq<int>, k: int)
    requires
        start.len() == n,
    ensures
        filled_up(c, me, n, start, k) == start,
    decreases k,
{
    if k > 0 {
        lemma_full(c, me, n, start, k - 1);
    }
}

/// A drawn path ends at another node than the one to avoid, and is a path of three hops
/// that stand apart.
pub proof fn law_pool_paths_end_elsewhere(
    state: rand::rngs::StdRng,
    consensus: &ConsensusDocument,
    excluded: &[String],
    avoid: &str,
    p: SelectedPath,
)
    requires
        exists|rng: &mut rand::rngs::StdRng|
            *rng == state && #[trigger] call_ensures(
                pool_path,
                (rng, consensus, excluded, Some(avoid)),
                Ok(p),
            ),
    ensures
        p.hops@.len() == 3,
        p.hops@[2].node_id_hex@ != avoid@,
        p.hops@[0].node_id_hex@ != p.hops@[1].node_id_hex@,
        p.hops@[1].node_id_hex@ != p.hops@[2].node_id_hex@,
        p.hops@[0].node_id_hex@ != p.hops@[2].node_id_hex@,
{
    let c = *consensus;
    let x = excluded@;
    let (g, m, e) = choose|g: directory::PeerEntry, m: directory::PeerEntry, e: directory::PeerEntry| #[trigger]
        path_select::is_path(c, x, None, p, g, m, e);
    assert(path_select::is_path(c, x, None, p, g, m, e));
    path_select::law_paths_are_diverse(c, x, None, p, g, m, e);
}

/// A path to an introduction point meets the service's own relay nowhere before its end.
pub proof fn law_intro_paths_pass_the_service_by(
    state: rand::rngs::StdRng,
    consensus: &ConsensusDocument,
    excluded: &[String],
    only_self: &[String],
    hs_hex: &str,
    p: SelectedPath,
)
    requires
        exists|rng: &mut rand::rngs::StdRng|
            *rng == state && #[trigger] call_ensures(
                intro_path,
                (rng, consensus, excluded, only_self, hs_hex),
                Ok(p),
            ),
    ensures
        p.hops@.len() == 3,
        p.hops@[0].node_id_hex@ != hs_hex@,
        p.hops@[1].node_id_hex@ != hs_hex@,
{
}

/// An introduction circuit is kept off the node itself and off every hop of the
/// rendezvous circuit, and off nothing else.
pub proof fn law_introductions_keep_off_the_rendezvous(self_id: &str, rp_hops: &[LinkSpec], r: Vec<String>)
    requires
        call_ensures(intro_exclusions, (self_id, rp_hops), r),
    ensures
        path_select::is_excluded(self_id@, r@),
        forall|i: int|
            0 <= i < rp_hops@.len() ==> path_select::is_excluded(
                text::hex_of((#[trigger] rp_hops@[i]).node_id@),
                r@,
            ),
        forall|id: Seq<char>| #[trigger]
            path_select::is_excluded(id, r@) ==> id == self_id@ || exists|i: int|
                0 <= i < rp_hops@.len() && id == text::hex_of((#[trigger] rp_hops@[i]).node_id@),
{
    assert(r@[0]@ == self_id@);
    assert forall|i: int| 0 <= i < rp_hops@.len() implies path_select::is_excluded(
        text::hex_of((#[trigger] rp_hops@[i]).node_id@),
        r@,
    ) by {
        assert(r@[i + 1]@ == text::hex_of(rp_hops@[i].node_id@));
    }
    assert forall|id: Seq<char>| #[trigger] path_select::is_excluded(id, r@) implies id == self_id@ || exists|i: int|
        0 <= i < rp_hops@.len() && id == text::hex_of((#[trigger] rp_hops@[i]).node_id@) by {
        let k = choose|k: int| 0 <= k < r@.len() && (#[trigger] r@[k])@ == id;
        if k > 0 {
            assert(r@[(k - 1) + 1]@ == text::hex_of(rp_hops@[k - 1].node_id@));
        }
    }
}

/// The path to a service ends at the node and the key that its descriptor names, at the
/// address it names, or that of the hop it takes the place of; the hops before stay. A
/// descriptor that names no node is refused, and no other.
pub proof fn law_the_way_in_ends_the_path(
    specs: Vec<LinkSpec>,
    resolved: &ResolvedIntro,
    r: Result<Vec<LinkSpec>, Error>,
)
    requires
        call_ensures(aim_at_service, (specs, resolved), r),
    ensures
        r is Ok <==> exists|i: int| 0 <= i < 32 && #[trigger] resolved.intro_node_id@[i] != 0,
        r is Ok ==> r->Ok_0@.len() == specs@.len(),
        r is Ok ==> forall|i: int| 0 <= i < specs@.len() - 1 ==> #[trigger] r->Ok_0@[i] == specs@[i],
        r is Ok && specs@.len() > 0 ==> {
            let l = r->Ok_0@[specs@.len() - 1];
            &&& l.node_id@ == resolved.intro_node_id@
            &&& l.static_pub@ == resolved.intro_pub@
            &&& resolved.intro_host matches Some(h) ==> l.host@ == h@
            &&& resolved.intro_host is None ==> l.host@ == specs@.last().host@
            &&& resolved.intro_port matches Some(p) ==> l.port == p
            &&& resolved.intro_port is None ==> l.port == specs@.last().port
        },
{
    if r is Ok {
        let v = r->Ok_0@;
        assert forall|i: int| 0 <= i < specs@.len() - 1 implies #[trigger] v[i] == specs@[i] by {
            assert(v.drop_last()[i] == specs@.drop_last()[i]);
        }
    }
    if is_zero(resolved.intro_node_id@) {
    } else {
        let i = choose|i: int| 0 <= i < resolved.intro_node_id@.len() && resolved.intro_node_id@[i] != 0;
        assert(resolved.intro_node_id@[i] != 0);
    }
}

/// What a failed fetch leaves behind is torn down: the rendezvous circuit once it stands,
/// the introduction circuit and the wait as long as they do.
pub proof fn law_failed_fetches_clean_up(stage: FetchStage, e: &str, r: FetchFailure)
    requires
        call_ensures(fetch_failure, (stage, e), r),
    ensures
        r.error is Handshake,
        stage is Authorization || stage is RpCircuit || stage is RpPath <==> !r.drop_rp,
        r.drop_intro <==> stage is Establish || stage is Introduce,
        r.drop_waiter <==> stage is Introduce || stage is TimedOut,
        r.drop_intro || r.drop_waiter ==> r.drop_rp,
{
}

/// A circuit has at least one hop and at most as many as are allowed.
pub proof fn law_circuits_have_a_length(n: usize, max: usize, r: Result<(), Error>)
    requires
        call_ensures(check_path_length, (n, max), r),
    ensures
        r is Ok <==> n >= 1 && n <= max,
        r is Err ==> r->Err_0 is Handshake,
{
}

/// A circuit starts over a link to its guard. Without one the guard is dialled once; a
/// dial that failed, or that reached another node, ends the attempt.
pub proof fn law_the_guard_is_dialled_once(guard: &LinkSpec, linked: bool, dialled: Option<Result<(), String>>, r: BuildStep)
    requires
        call_ensures(guard_step, (guard, linked, dialled), r),
    ensures
        r is Start <==> linked && (dialled is None || dialled->0 is Ok),
        r is Dial <==> !linked && dialled is None,
        r is Fail <==> (dialled is Some && dialled->0 is Err) || (!linked && dialled is Some),
        r is Fail ==> r->Fail_0 is Handshake,
{
}

/// A circuit grows hop by hop: once it has the hop asked for, the next is asked for, or it
/// is finished behind the last; until then it waits, and fails once it is late.
pub proof fn law_hops_come_one_by_one(n: usize, i: usize, hops: Option<usize>, late: bool, r: BuildStep)
    requires
        i < n,
        call_ensures(hop_step, (n, i, hops, late), r),
    ensures
        r is Finish <==> hops is Some && hops->0 > i && i == n - 1,
        r is Extend <==> hops is Some && hops->0 > i && i < n - 1,
        r is Extend ==> r->Extend_0 == i + 1,
        r is Wait <==> (hops is None || hops->0 <= i) && !late,
        r is Wait ==> r->Wait_0 == 50,
        r is Fail <==> (hops is None || hops->0 <= i) && late,
{
}

/// The hops of a path are told apart by their part: the first is the guard, the last the
/// exit, and those between are middles.
pub proof fn law_hops_have_their_parts(i: usize, n: usize, r: &'static str)
    requires
        i < n,
        call_ensures(hop_role, (i, n), r),
    ensures
        n == 1 ==> r@ == "single"@,
        n > 1 && i == 0 ==> r@ == "guard"@,
        n > 1 && i == n - 1 ==> r@ == "exit"@,
        0 < i < n - 1 ==> r@ == "middle"@,
{
}

/// The pump sleeps between a twentieth of a second and five seconds, as long as the
/// schedule says within these bounds; it emits when the schedule says so, stops where
/// there is no schedule, and does neither while the circuit is not padded.
pub proof fn law_the_pump_follows_the_schedule(unpadded: bool, decision: PadDecision, r: PumpAction)
    requires
        call_ensures(pump_step, (unpadded, decision), r),
    ensures
        r is Emit <==> !unpadded && decision is Now,
        r is Stop <==> !unpadded && decision is Never,
        r is Sleep ==> 50_000_000 <= r->Sleep_0 <= 5_000_000_000,
        unpadded ==> r == PumpAction::Sleep(5_000_000_000),
        !unpadded && decision is SleepFor && 50_000_000 <= decision->SleepFor_0 <= 5_000_000_000 ==> r
            == PumpAction::Sleep(decision->SleepFor_0),
        !unpadded && decision is SleepFor && decision->SleepFor_0 < 50_000_000 ==> r == PumpAction::Sleep(
            50_000_000,
        ),
        !unpadded && decision is SleepFor && decision->SleepFor_0 > 5_000_000_000 ==> r == PumpAction::Sleep(
            5_000_000_000,
        ),
{
}

/// A vanguard takes the second hop of a path exactly where it can be read and is linked;
/// then it is that hop, under the keys and the address it was kept with, and the set of
/// vanguards does not change. Otherwise the path stays as it was drawn.
pub proof fn law_a_vanguard_takes_the_second_hop(
    before: Vanguards,
    after: Vanguards,
    candidate: Vec<LinkSpec>,
    v: VanguardEntry,
    linked: &[[u8; 32]],
    now: u64,
    r: HsPath,
)
    requires
        candidate@.len() >= 2,
        exists|x: &mut Vanguards|
            *x == before && *final(x) == after && #[trigger] call_ensures(
                place_vanguard,
                (x, candidate, Some(v), linked, now),
                r,
            ),
    ensures
        r.path@.len() == candidate@.len(),
        forall|i: int| 0 <= i < candidate@.len() && i != 1 ==> #[trigger] r.path@[i] == candidate@[i],
        r.vanguard is Some ==> r.vanguard->0@ == v.node_id_hex@ && after.entries@ == before.entries@,
        r.vanguard is Some ==> text::hex_of(r.path@[1].node_id@) == text::lowered(v.node_id_hex@) && text::hex_of(
            r.path@[1].static_pub@,
        ) == text::lowered(v.static_pub_hex@) && r.path@[1].host@ == v.host@ && r.path@[1].port == v.port,
        r.vanguard is Some ==> exists|i: int| 0 <= i < linked@.len() && #[trigger] linked@[i]@ == r.path@[1].node_id@,
        r.vanguard is None ==> r.path@ == candidate@,
        rotation::id_in(v.node_id_hex@) is Some && rotation::id_in(v.static_pub_hex@) is Some && is_linked(
            linked@,
            rotation::id_in(v.node_id_hex@)->0,
        ) ==> r.vanguard is Some,
{
    if r.vanguard is Some {
        text::lemma_unhex_lowered(v.node_id_hex@);
        text::lemma_unhex_lowered(v.static_pub_hex@);
    }
}

/// What came of a circuit is recorded of its vanguard: a built one is the last used, and
/// one that failed is out of reach.
pub proof fn law_outcomes_are_recorded(before: Vanguards, after: Vanguards, id: &str, built: bool, now: u64, i: int)
    requires
        vanguards::distinct_ids(before.entries@),
        0 <= i < before.entries@.len(),
        before.entries@[i].node_id_hex@ == id@,
        exists|x: &mut Vanguards|
            *x == before && *final(x) == after && #[trigger] call_ensures(
                vanguard_outcome,
                (x, id, built, now),
                (),
            ),
    ensures
        after.entries@.len() == before.entries@.len(),
        built ==> after.entries@[i].last_used == now && after.entries@[i].unreachable_since == 0,
        !built && before.entries@[i].unreachable_since == 0 ==> after.entries@[i].unreachable_since == now,
        !built && before.entries@[i].unreachable_since != 0 ==> after.entries@[i] == before.entries@[i],
        !built ==> after.entries@[i].last_used == before.entries@[i].last_used,
        forall|j: int| 0 <= j < before.entries@.len() && j != i ==> #[trigger] after.entries@[j] == before.entries@[j],
{
    let s = before.entries@;
    assert(s[i].node_id_hex@ == id@);
    assert forall|j: int| 0 <= j < s.len() && j != i implies #[trigger] after.entries@[j] == s[j] by {
        if j < i {
            assert(s[j].node_id_hex@ != s[i].node_id_hex@);
        } else {
            assert(s[i].node_id_hex@ != s[j].node_id_hex@);
        }
    }
}

/// A circuit for messages leads through as many peers as asked, if there are so many: each
/// is another node, none is this one, and each is linked to under the address and the key
/// it is known by.
pub proof fn law_message_circuits_lead_through_known_peers(
    cands: &[PeerInfo],
    me: &[u8; 32],
    n: usize,
    r: Vec<LinkSpec>,
)
    requires
        forall|i: int, j: int|
            0 <= i < j < cands@.len() ==> (#[trigger] cands@[i]).node_id@ != (#[trigger] cands@[j]).node_id@,
        call_ensures(com_circuit_path, (cands, me, n), r),
    ensures
        r@.len() <= n,
        forall|i: int|
            0 <= i < r@.len() ==> (#[trigger] r@[i]).node_id@ != me@ && exists|k: int|
                0 <= k < cands@.len() && (#[trigger] cands@[k]).node_id@ == r@[i].node_id@ && cands@[k].host@
                    == r@[i].host@ && cands@[k].port == r@[i].port && text::lowered(cands@[k].static_pub@)
                    == text::hex_of(r@[i].static_pub@),
        forall|i: int, j: int| 0 <= i < j < r@.len() ==> (#[trigger] r@[i]).node_id@ != (#[trigger] r@[j]).node_id@,
        r@.len() < n ==> forall|k: int|
            0 <= k < cands@.len() && (#[trigger] cands@[k]).node_id@ != me@ && rotation::id_in(
                cands@[k].static_pub@,
            ) is Some ==> exists|i: int| 0 <= i < r@.len() && (#[trigger] r@[i]).node_id@ == cands@[k].node_id@,
{
    let c = cands@;
    law_paths_are_filled_with_distinct_nodes(c, me@, n as nat);
    let f = chosen_hops(c, me@, n as nat);
    assert forall|i: int| 0 <= i < r@.len() implies (#[trigger] r@[i]).node_id@ != me@ && exists|k: int|
        0 <= k < c.len() && (#[trigger] c[k]).node_id@ == r@[i].node_id@ && c[k].host@ == r@[i].host@ && c[k].port
            == r@[i].port && text::lowered(c[k].static_pub@) == text::hex_of(r@[i].static_pub@) by {
        assert(hop_at(r@, c, f, i));
        let k = f[i];
        text::lemma_unhex_lowered(c[k].static_pub@);
        assert(c[k].node_id@ == r@[i].node_id@);
    }
    assert forall|i: int, j: int| 0 <= i < j < r@.len() implies (#[trigger] r@[i]).node_id@ != (
    #[trigger] r@[j]).node_id@ by {
        assert(hop_at(r@, c, f, i) && hop_at(r@, c, f, j));
        assert(c[f[i]].node_id@ != c[f[j]].node_id@);
    }
    if r@.len() < n {
        assert forall|k: int|
            0 <= k < c.len() && (#[trigger] c[k]).node_id@ != me@ && rotation::id_in(
                c[k].static_pub@,
            ) is Some implies exists|i: int| 0 <= i < r@.len() && (#[trigger] r@[i]).node_id@ == c[k].node_id@ by {
            assert(can_be_hop(c[k], me@));
            assert(node_used(c, f, c[k]));
            let i = choose|i: int| 0 <= i < f.len() && c[#[trigger] f[i]].node_id@ == c[k].node_id@;
            assert(hop_at(r@, c, f, i));
            assert(r@[i].node_id@ == c[k].node_id@);
        }
    }
}

/// What is said of a failed fetch tells at which step it failed, and why.
pub proof fn law_what_is_said_of_a_failed_fetch(stage: FetchStage, e: &str, r: FetchFailure)
    requires
        call_ensures(fetch_failure, (stage, e), r),
    ensures
        r.error matches Error::Handshake(m) && m@ == match stage {
            FetchStage::Authorization => "hs_fetch: not authorized for this client-auth service"@,
            FetchStage::RpCircuit => "hs_fetch: build RP circuit: "@ + e@,
            FetchStage::RpPath => "hs_fetch: empty RP path"@,
            FetchStage::IntroPath =>
                "hs_fetch: intro path selection: no path avoids routing through the service's own relay — the network needs more relays"@,
            FetchStage::IntroSpecs => "hs_fetch: intro link specs: "@ + e@,
            FetchStage::WayIn => "hs_fetch: descriptor lacks intro_node_id; cannot target HS"@,
            FetchStage::IntroCircuit => "hs_fetch: build intro circuit: "@ + e@,
            FetchStage::Establish => "hs_fetch: establish_rendezvous: "@ + e@,
            FetchStage::Introduce => "hs_fetch: send_introduce1: "@ + e@,
            FetchStage::Canceled => "hs_fetch: rendezvous waiter canceled"@,
            FetchStage::TimedOut => "hs_fetch: timed out waiting for RENDEZVOUS2"@,
        },
{
}

/// Without a vanguard the second hop that was drawn is offered as one, and taken where there
/// is room; a vanguard that is not linked is out of reach from then on.
pub proof fn law_second_hops_become_vanguards(
    before: Vanguards,
    after: Vanguards,
    candidate: Vec<LinkSpec>,
    linked: &[[u8; 32]],
    now: u64,
    r: HsPath,
)
    requires
        candidate@.len() >= 2,
        before.entries@.len() < 4,
        forall|i: int|
            0 <= i < before.entries@.len() ==> (#[trigger] before.entries@[i]).node_id_hex@ != text::hex_of(
                candidate@[1].node_id@,
            ),
        exists|x: &mut Vanguards|
            *x == before && *final(x) == after && #[trigger] call_ensures(
                place_vanguard,
                (x, candidate, None, linked, now),
                r,
            ),
    ensures
        r.path@ == candidate@,
        r.vanguard is None,
        after.entries@.len() > 0,
        ({
            let e = after.entries@.last();
            &&& e.node_id_hex@ == text::hex_of(candidate@[1].node_id@)
            &&& e.static_pub_hex@ == text::hex_of(candidate@[1].static_pub@)
            &&& e.host@ == candidate@[1].host@
            &&& e.port == candidate@[1].port
            &&& e.added_at == now
        }),
{
    let s = before.entries@;
    let keep = |e: VanguardEntry| e.stays(now);
    broadcast use vstd::seq_lib::group_filter_ensures;

    assert(vanguards::staying(s, now).len() <= s.len());
    assert(!vanguards::has_id(s, text::hex_of(candidate@[1].node_id@)));
}

/// A path is planned with the vanguard that was used last, of those that can be used at the
/// time.
pub proof fn law_plans_take_the_last_used_vanguard(
    before: Vanguards,
    after: Vanguards,
    candidate: Vec<LinkSpec>,
    linked: &[[u8; 32]],
    now: u64,
    r: HsPath,
)
    requires
        exists|x: &mut Vanguards|
            *x == before && *final(x) == after && #[trigger] call_ensures(
                plan_hs_path,
                (x, candidate, linked, now),
                r,
            ),
    ensures
        r.path@.len() == candidate@.len(),
        r.vanguard is Some ==> exists|i: int|
            {
                &&& 0 <= i < before.entries@.len()
                &&& (#[trigger] before.entries@[i]).node_id_hex@ == r.vanguard->0@
                &&& before.entries@[i].unreachable_since == 0
                &&& now < before.entries@[i].added_at + 864_000
                &&& forall|j: int|
                    0 <= j < before.entries@.len() && (#[trigger] before.entries@[j]).unreachable_since == 0 && now
                        < before.entries@[j].added_at + 864_000 ==> before.entries@[j].last_used
                        <= before.entries@[i].last_used
            },
        r.vanguard is Some ==> candidate@.len() >= 2,
{
    let s = before.entries@;
    let pick = choose|pick: Option<VanguardEntry>|
        vanguards::picked(s, now, pick) && #[trigger] placed(
            r,
            candidate@,
            pick,
            linked@,
            now,
            s,
            after.entries@,
        );
    assert(vanguards::picked(s, now, pick));
    if r.vanguard is Some {
        let e = pick->0;
        let i = choose|i: int|
            0 <= i < s.len() && #[trigger] s[i] == e && e.usable(now) && (forall|j: int|
                0 <= j < s.len() && (#[trigger] s[j]).usable(now) ==> s[j].last_used <= e.last_used && (j > i
                    ==> s[j].last_used < e.last_used));
        assert(s[i].node_id_hex@ == r.vanguard->0@);
        assert forall|j: int|
            0 <= j < s.len() && (#[trigger] s[j]).unreachable_since == 0 && now < s[j].added_at + 864_000 implies s[j].last_used
            <= s[i].last_used by {
            assert(s[j].usable(now));
        }
    }
}

} // verus!
