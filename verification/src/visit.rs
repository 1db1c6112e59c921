//! A client's visit to a hidden service, from the descriptor to the page.

use crate::building;
use crate::building::{
    FetchFailure, FetchStage, aim_at_service, fetch_failure, intro_exclusions, intro_path,
};
use crate::circuit::LinkSpec;
use crate::crypto;
use crate::descriptor;
use crate::descriptor::{HsDescriptor, IntroSecret, ResolvedIntro};
use crate::directory::ConsensusDocument;
use crate::errors;
use crate::errors::Error;
use crate::fetch::{HsFetchResponse, request_for};
use crate::meeting;
use crate::node::PhiNode;
use crate::path_select;
use crate::path_select::{PathError, SelectedPath};
use crate::rendezvous::{EstablishRendezvous, IntroducePlaintext};
use crate::text;
use crate::text::{hex_encode, join3, quote};
use vstd::prelude::*;
use vstd::string::*;
use vstd::utf8::*;

verus! {

/// How far a visit has come.
#[derive(Debug)]
pub enum Visit {
    /// The circuit to a meeting point is being built.
    Opening,
    /// The circuit `rp` ends at the meeting point `end`; the one to the service's way in
    /// is being built.
    Approaching { rp: u32, end: LinkSpec },
    /// The meeting point is asked to hold the cookie.
    Arranging { rp: u32, end: LinkSpec, intro: u32, cookie: [u8; 20] },
    /// The introduction is being sent.
    Introducing { rp: u32, intro: u32 },
    /// The service is waited for.
    Awaiting { rp: u32 },
    /// The page is asked for.
    Asking { rp: u32 },
}

/// What became of the wait for the service.
#[derive(Debug)]
pub enum Meeting {
    /// The service came; the circuit is sealed end to end.
    Ready,
    /// What came was not the service. The circuit is down already.
    Refused(Error),
    /// Nobody waits any more.
    Canceled,
    /// The service did not come.
    TimedOut,
}

/// What happened.
#[derive(Debug)]
pub enum VisitEvent {
    /// The circuit to a meeting point stands, with these hops, or does not.
    RpBuilt(Result<(u32, Vec<LinkSpec>), String>),
    /// The circuit to the way in stands, or does not. `rp_hop` is the last hop of the
    /// circuit to the meeting point, or why there is none.
    IntroBuilt { circuit: Result<u32, String>, rp_hop: Result<usize, String> },
    /// The meeting point was asked to hold the cookie, or could not be.
    Established(Result<(), String>),
    /// The introduction was sent, or could not be.
    Introduced(Result<(), String>),
    /// The wait for the service is over.
    Met(Meeting),
    /// The service answered, or did not.
    Answered(Result<HsFetchResponse, Error>),
}

/// What to do next.
#[derive(Debug)]
pub enum VisitStep {
    /// Build a circuit along these hops.
    Approach(Vec<LinkSpec>),
    /// Send this to the hop of the circuit to the meeting point.
    Arrange(usize, Vec<u8>),
    /// Begin to wait for the service, and send this over the circuit to the way in.
    Introduce(Vec<u8>),
    /// Take the circuit to the way in down, and wait for the service.
    Await(u32),
    /// Send this request over the circuit to the meeting point.
    Ask(Vec<u8>),
    /// The visit is over.
    Done(HsFetchResponse),
    /// The visit failed: take these circuits down, and stop waiting on this one.
    Fail { error: Error, destroy: Vec<u32>, forget: Option<u32> },
    /// Nothing: this was not waited for.
    Wait,
}

/// The circuits that stand for a visit.
pub open spec fn circuits(v: Visit) -> Seq<u32> {
    match v {
        Visit::Opening => Seq::empty(),
        Visit::Approaching { rp, .. } => seq![rp],
        Visit::Arranging { rp, intro, .. } => seq![intro, rp],
        Visit::Introducing { rp, intro } => seq![intro, rp],
        Visit::Awaiting { rp } => seq![rp],
        Visit::Asking { rp } => seq![rp],
    }
}

/// `r` fails at the stage with the reason `why`, takes the circuits down, and stops
/// waiting on `forget`.
pub open spec fn fails_at(
    r: VisitStep,
    stage: FetchStage,
    why: Seq<char>,
    down: Seq<u32>,
    waits_on: Option<u32>,
) -> bool {
    r matches VisitStep::Fail { error, destroy, forget } && (error matches Error::Handshake(m) && m@
        == building::stage_text(stage, why)) && destroy@ == down && forget == waits_on
}

/// The identifiers that the way to the service keeps away from: the client's own, and
/// those of the circuit to the meeting point.
pub open spec fn kept_away(ex: Seq<String>, me: Seq<char>, hops: Seq<LinkSpec>) -> bool {
    &&& ex.len() == hops.len() + 1
    &&& ex[0]@ == me
    &&& forall|i: int|
        0 <= i < hops.len() ==> (#[trigger] ex[i + 1])@ == text::hex_of(hops[i].node_id@)
}

/// `p` is a way past the service itself that keeps away from `ex`; or from `own` alone,
/// where none kept away from all of `ex`.
pub open spec fn is_way(
    p: SelectedPath,
    c: ConsensusDocument,
    ex: Seq<String>,
    own: Seq<String>,
    hs: Seq<char>,
) -> bool {
    ||| building::drawn_past(Some(p), c, ex, hs)
    ||| building::drawn_past(None, c, ex, hs) && building::drawn_past(Some(p), c, own, hs)
}

/// `specs` are the hops of `p`, the last of them replaced by the way in.
pub open spec fn leads_in(specs: Seq<LinkSpec>, p: SelectedPath, x: ResolvedIntro) -> bool {
    &&& specs.len() == p.hops@.len()
    &&& forall|i: int|
        0 <= i < specs.len() - 1 ==> path_select::links_to(#[trigger] specs[i], p.hops@[i])
    &&& specs.len() > 0 ==> exists|last: LinkSpec| #[trigger]
        path_select::links_to(last, p.hops@.last()) && building::is_way_in(specs.last(), last, x)
}

/// Once the circuit `rp` to a meeting point stands, `r` is to build the one to the way
/// in, or to fail and take `rp` down.
pub open spec fn approaches(
    w: Visit,
    r: VisitStep,
    rp: u32,
    hops: Seq<LinkSpec>,
    me: Seq<char>,
    c: ConsensusDocument,
    x: ResolvedIntro,
    ex: Seq<String>,
    own: Seq<String>,
) -> bool {
    let hs = text::hex_of(x.intro_node_id@);
    &&& kept_away(ex, me, hops)
    &&& own.len() == 1 && own[0]@ == me
    &&& match r {
        VisitStep::Approach(specs) => {
            &&& w == Visit::Approaching { rp, end: hops.last() }
            &&& !building::is_zero(x.intro_node_id@)
            &&& exists|p: SelectedPath| #[trigger]
                is_way(p, c, ex, own, hs) && leads_in(specs@, p, x)
        },
        _ => {
            &&& w == Visit::Opening
            &&& {
                ||| fails_at(r, FetchStage::IntroPath, Seq::empty(), seq![rp], None)
                    && building::drawn_past(None, c, ex, hs) && building::drawn_past(
                    None,
                    c,
                    own,
                    hs,
                )
                ||| exists|p: SelectedPath, i: int|
                    #![trigger is_way(p, c, ex, own, hs), p.hops@[i]]
                    is_way(p, c, ex, own, hs) && 0 <= i < p.hops@.len() && (path_select::hop_fault(
                        p.hops@[i],
                    ) matches Some(t) && fails_at(
                        r,
                        FetchStage::IntroSpecs,
                        "InsufficientRelays("@ + text::quoted(t) + ")"@,
                        seq![rp],
                        None,
                    ))
                ||| fails_at(r, FetchStage::WayIn, Seq::empty(), seq![rp], None)
                    && building::is_zero(x.intro_node_id@)
            }
        },
    }
}

/// The visit `v` of the node `before` goes on with the event: to the visit `w`, the step
/// `r` and the node `after`.
pub open spec fn goes_on(
    before: PhiNode,
    after: PhiNode,
    v: Visit,
    e: VisitEvent,
    x: ResolvedIntro,
    c: ConsensusDocument,
    path: Seq<char>,
    w: Visit,
    r: VisitStep,
) -> bool {
    let unchanged = after == before;
    match (v, e) {
        (Visit::Opening, VisitEvent::RpBuilt(Err(why))) => unchanged && w == v && fails_at(
            r,
            FetchStage::RpCircuit,
            why@,
            Seq::empty(),
            None,
        ),
        (Visit::Opening, VisitEvent::RpBuilt(Ok((rp, hops)))) => unchanged && if hops@.len() == 0 {
            w == v && fails_at(r, FetchStage::RpPath, Seq::empty(), Seq::empty(), None)
        } else {
            exists|ex: Seq<String>, own: Seq<String>| #[trigger]
                approaches(w, r, rp, hops@, text::hex_of(before.node_id@), c, x, ex, own)
        },
        (
            Visit::Approaching { rp, end },
            VisitEvent::IntroBuilt { circuit: Err(why), rp_hop },
        ) => unchanged && w == v && fails_at(
            r,
            FetchStage::IntroCircuit,
            why@,
            circuits(v),
            None,
        ),
        (
            Visit::Approaching { rp, end },
            VisitEvent::IntroBuilt { circuit: Ok(intro), rp_hop: Err(why) },
        ) => unchanged && w == v && fails_at(
            r,
            FetchStage::Establish,
            why@,
            seq![intro] + circuits(v),
            None,
        ),
        (
            Visit::Approaching { rp, end },
            VisitEvent::IntroBuilt { circuit: Ok(intro), rp_hop: Ok(hop) },
        ) => {
            let l = after.pending_rendezvous@;
            &&& after == (PhiNode { pending_rendezvous: after.pending_rendezvous, ..before })
            &&& l.len() == before.pending_rendezvous@.len() + 1
            &&& l.drop_last() == before.pending_rendezvous@
            &&& meeting::waits_for(l.last(), rp, x.intro_pub@)
            &&& w == Visit::Arranging { rp, end, intro, cookie: l.last().cookie }
            &&& r matches VisitStep::Arrange(h, data) && h == hop && data@ == l.last().cookie@
        },
        (Visit::Arranging { rp, end, intro, cookie }, VisitEvent::Established(Err(why))) => unchanged
            && w == v && fails_at(r, FetchStage::Establish, why@, circuits(v), None),
        (Visit::Arranging { rp, end, intro, cookie }, VisitEvent::Established(Ok(_))) => {
            let l = before.pending_rendezvous@;
            let k = meeting::cookie_at(l, cookie@);
            &&& unchanged
            &&& if k < l.len() {
                &&& w == Visit::Introducing { rp, intro }
                &&& r matches VisitStep::Introduce(data) && meeting::introduces(
                    data@,
                    x.intro_pub@,
                    x.intro_pub@,
                    (IntroducePlaintext {
                        rp_node_id: end.node_id,
                        rp_host: end.host,
                        rp_port: end.port,
                        cookie,
                    }),
                    l[k].client_sk@,
                )
            } else {
                w == v && fails_at(
                    r,
                    FetchStage::Introduce,
                    "send_introduce1: no pending_rendezvous for this cookie — call establish_rendezvous_on first"@,
                    circuits(v),
                    Some(rp),
                )
            }
        },
        (Visit::Introducing { rp, intro }, VisitEvent::Introduced(Err(why))) => unchanged && w == v
            && fails_at(r, FetchStage::Introduce, why@, circuits(v), Some(rp)),
        (Visit::Introducing { rp, intro }, VisitEvent::Introduced(Ok(_))) => unchanged && w
            == Visit::Awaiting { rp } && r == VisitStep::Await(intro),
        (Visit::Awaiting { rp }, VisitEvent::Met(Meeting::Ready)) => unchanged && w
            == Visit::Asking { rp } && (r matches VisitStep::Ask(data) && data@ == encode_utf8(
            "GET "@ + path,
        )),
        (Visit::Awaiting { rp }, VisitEvent::Met(Meeting::Refused(x))) => unchanged && w == v && (r
            matches VisitStep::Fail { error, destroy, forget } && error == x && destroy@.len() == 0
            && forget is None),
        (Visit::Awaiting { rp }, VisitEvent::Met(Meeting::Canceled)) => unchanged && w == v
            && fails_at(r, FetchStage::Canceled, Seq::empty(), circuits(v), None),
        (Visit::Awaiting { rp }, VisitEvent::Met(Meeting::TimedOut)) => unchanged && w == v
            && fails_at(r, FetchStage::TimedOut, Seq::empty(), circuits(v), Some(rp)),
        (Visit::Asking { rp }, VisitEvent::Answered(Ok(page))) => unchanged && w == v && r
            == VisitStep::Done(page),
        (Visit::Asking { rp }, VisitEvent::Answered(Err(x))) => unchanged && w == v && (r
            matches VisitStep::Fail { error, destroy, forget } && error == x && destroy@
            == circuits(v) && forget is None),
        _ => unchanged && w == v && r is Wait,
    }
}

/// The circuits that are taken down at the stage, of those that may stand.
spec fn dropped(stage: FetchStage, rp: Option<u32>, intro: Option<u32>) -> Seq<u32> {
    let i = building::intro_stands(stage) && intro is Some;
    let p = building::rp_stands(stage) && rp is Some;
    if i && p {
        seq![intro->0, rp->0]
    } else if i {
        seq![intro->0]
    } else if p {
        seq![rp->0]
    } else {
        Seq::empty()
    }
}

/// Fails at the stage, with the circuits that may stand then.
fn give_up(stage: FetchStage, why: &str, rp: Option<u32>, intro: Option<u32>) -> (r: VisitStep)
    ensures
        fails_at(
            r,
            stage,
            why@,
            dropped(stage, rp, intro),
            if building::waiter_stands(stage) {
                rp
            } else {
                None
            },
        ),
{
    let f: FetchFailure = fetch_failure(stage, why);
    let mut destroy: Vec<u32> = Vec::new();
    if f.drop_intro {
        match intro {
            Some(cid) => destroy.push(cid),
            None => {},
        }
    }
    if f.drop_rp {
        match rp {
            Some(cid) => destroy.push(cid),
            None => {},
        }
    }
    let forget: Option<u32> = if f.drop_waiter {
        rp
    } else {
        None
    };
    assert(destroy@ =~= dropped(stage, rp, intro));
    VisitStep::Fail { error: f.error, destroy, forget }
}

/// The way that was drawn, first from the state `state`: past the relays of `ex` where a draw
/// allowed it, else past those of `own`; without one, neither did.
pub open spec fn is_drawn_way(
    p: Option<SelectedPath>,
    state: rand::rngs::StdRng,
    c: ConsensusDocument,
    ex: Seq<String>,
    own: Seq<String>,
    hs: Seq<char>,
) -> bool {
    ||| p is Some && building::tried_past(p, state, c, ex, hs)
    ||| building::tried_past(None, state, c, ex, hs) && exists|later: rand::rngs::StdRng| #[trigger]
        building::tried_past(p, later, c, own, hs)
}

/// The step comes from the way that was drawn, first from the state `state`.
pub open spec fn follows_draw(
    r: VisitStep,
    state: rand::rngs::StdRng,
    rp: u32,
    hops: Seq<LinkSpec>,
    me: Seq<char>,
    c: ConsensusDocument,
    x: ResolvedIntro,
    ex: Seq<String>,
    own: Seq<String>,
) -> bool {
    &&& kept_away(ex, me, hops)
    &&& own.len() == 1 && own[0]@ == me
    &&& exists|p: Option<SelectedPath>|
        {
            &&& #[trigger] is_drawn_way(p, state, c, ex, own, text::hex_of(x.intro_node_id@))
            &&& p is None ==> fails_at(r, FetchStage::IntroPath, Seq::empty(), seq![rp], None)
            &&& r matches VisitStep::Approach(specs) ==> p is Some && leads_in(specs@, p->0, x)
        }
}

/// Looks for the way to the service, once the circuit `rp` to a meeting point stands.
fn approach(
    me: &[u8; 32],
    rp: u32,
    hops: &Vec<LinkSpec>,
    resolved: &ResolvedIntro,
    consensus: &ConsensusDocument,
    rng: &mut rand::rngs::StdRng,
) -> (o: (Visit, VisitStep))
    requires
        hops@.len() > 0,
        path_select::total_bandwidth(consensus.peers@) <= u64::MAX,
    ensures
        exists|ex: Seq<String>, own: Seq<String>| #[trigger]
            approaches(o.0, o.1, rp, hops@, text::hex_of(me@), *consensus, *resolved, ex, own),
        exists|ex: Seq<String>, own: Seq<String>| #[trigger]
            follows_draw(o.1, *old(rng), rp, hops@, text::hex_of(me@), *consensus, *resolved, ex, own),
{
    let name: String = hex_encode(me);
    let hs: String = hex_encode(&resolved.intro_node_id);
    let ex: Vec<String> = intro_exclusions(name.as_str(), hops);
    let mut own: Vec<String> = Vec::new();
    own.push(name);
    assert(kept_away(ex@, text::hex_of(me@), hops@));
    let ghost m = text::hex_of(me@);
    let ghost mut drawn: Option<SelectedPath> = None;
    let o: (Visit, VisitStep) = match intro_path(rng, consensus, &ex, &own, hs.as_str()) {
        Err(_) => {
            let r: VisitStep = give_up(FetchStage::IntroPath, "", Some(rp), None);
            (Visit::Opening, r)
        },
        Ok(p) => {
            assert(is_way(p, *consensus, ex@, own@, hs@));
            proof {
                drawn = Some(p);
            }
            match p.to_link_specs() {
                Err(PathError::InsufficientRelays(m)) => {
                    let q: String = quote(m.as_str());
                    let t: String = join3("InsufficientRelays(", q.as_str(), ")");
                    let r: VisitStep = give_up(FetchStage::IntroSpecs, t.as_str(), Some(rp), None);
                    (Visit::Opening, r)
                },
                Ok(specs) => {
                    let ghost plain = specs@;
                    match aim_at_service(specs, resolved) {
                    Err(_) => {
                        let r: VisitStep = give_up(FetchStage::WayIn, "", Some(rp), None);
                        (Visit::Opening, r)
                    },
                    Ok(v) => {
                        let end: LinkSpec = hops[hops.len() - 1].duplicate();
                        assert(leads_in(v@, p, *resolved)) by {
                            assert forall|i: int| 0 <= i < v@.len() - 1 implies path_select::links_to(
                                #[trigger] v@[i],
                                p.hops@[i],
                            ) by {
                                assert(v@.drop_last()[i] == plain.drop_last()[i]);
                                assert(path_select::hop_fault(p.hops@[i]) is None);
                            }
                            if v@.len() > 0 {
                                assert(path_select::hop_fault(p.hops@[plain.len() - 1]) is None);
                                assert(path_select::links_to(plain.last(), p.hops@.last()));
                            }
                        }
                        (Visit::Approaching { rp, end }, VisitStep::Approach(v))
                    },
                    }
                },
            }
        },
    };
    assert(approaches(o.0, o.1, rp, hops@, m, *consensus, *resolved, ex@, own@));
    assert(is_drawn_way(drawn, *old(rng), *consensus, ex@, own@, hs@));
    assert(follows_draw(o.1, *old(rng), rp, hops@, m, *consensus, *resolved, ex@, own@));
    o
}

/// `r` is the way into the service, where the client may know it.
pub open spec fn way_in_of(
    r: Result<ResolvedIntro, Error>,
    d: HsDescriptor,
    signature: Result<(), Error>,
    attempts: Seq<Result<Option<IntroSecret>, Error>>,
) -> bool {
    ||| r is Ok && descriptor::descriptor_resolves(Ok(Some(r->Ok_0)), d, signature, attempts)
    ||| errors::is_handshake(r, "hs_fetch: not authorized for this client-auth service"@)
        && descriptor::descriptor_resolves(Ok(None), d, signature, attempts)
    ||| r is Err && descriptor::descriptor_resolves(Err(r->Err_0), d, signature, attempts)
}

/// The way into the service of the descriptor, or why the client cannot visit it.
pub fn way_in(
    descriptor: &HsDescriptor,
    signature: Result<(), Error>,
    attempts: Vec<Result<Option<IntroSecret>, Error>>,
) -> (r: Result<ResolvedIntro, Error>)
    ensures
        way_in_of(r, *descriptor, signature, attempts@),
{
    match PhiNode::resolve_hs_descriptor(descriptor, signature, attempts) {
        Ok(Some(x)) => Ok(x),
        Ok(None) => {
            let f: FetchFailure = fetch_failure(FetchStage::Authorization, "");
            Err(f.error)
        },
        Err(e) => Err(e),
    }
}

impl PhiNode {
    /// Takes a visit one step further. What fails takes the circuits of the visit down.
    pub fn hs_fetch(
        &mut self,
        visit: Visit,
        event: VisitEvent,
        resolved: &ResolvedIntro,
        consensus: &ConsensusDocument,
        rng: &mut rand::rngs::StdRng,
        path: &str,
    ) -> (o: (Visit, VisitStep))
        requires
            old(self).wf(),
            path_select::total_bandwidth(consensus.peers@) <= u64::MAX,
        ensures
            final(self).wf(),
            goes_on(
                *old(self),
                *final(self),
                visit,
                event,
                *resolved,
                *consensus,
                path@,
                o.0,
                o.1,
            ),
            (visit is Opening && (event matches VisitEvent::RpBuilt(Ok((rp, hops))) && hops@.len() > 0)) ==> exists|
                ex: Seq<String>,
                own: Seq<String>,
            | #[trigger]
                follows_draw(
                    o.1,
                    *old(rng),
                    (event->RpBuilt_0->Ok_0).0,
                    (event->RpBuilt_0->Ok_0).1@,
                    text::hex_of(old(self).node_id@),
                    *consensus,
                    *resolved,
                    ex,
                    own,
                ),
            o.1 is Arrange ==> crypto::is_random(final(self).pending_rendezvous@.last().cookie@) && crypto::is_random(
                final(self).pending_rendezvous@.last().client_sk@,
            ),
    {
        match (visit, event) {
            (Visit::Opening, VisitEvent::RpBuilt(Err(why))) => {
                (Visit::Opening, give_up(FetchStage::RpCircuit, why.as_str(), None, None))
            },
            (Visit::Opening, VisitEvent::RpBuilt(Ok((rp, hops)))) => {
                if hops.len() == 0 {
                    return (Visit::Opening, give_up(FetchStage::RpPath, "", Some(rp), None));
                }
                approach(&self.node_id, rp, &hops, resolved, consensus, rng)
            },
            (
                Visit::Approaching { rp, end },
                VisitEvent::IntroBuilt { circuit: Err(why), .. },
            ) => {
                let r: VisitStep = give_up(FetchStage::IntroCircuit, why.as_str(), Some(rp), None);
                (Visit::Approaching { rp, end }, r)
            },
            (
                Visit::Approaching { rp, end },
                VisitEvent::IntroBuilt { circuit: Ok(intro), rp_hop: Err(why) },
            ) => {
                let r: VisitStep = give_up(
                    FetchStage::Establish,
                    why.as_str(),
                    Some(rp),
                    Some(intro),
                );
                assert(seq![intro, rp] =~= seq![intro] + seq![rp]);
                (Visit::Approaching { rp, end }, r)
            },
            (
                Visit::Approaching { rp, end },
                VisitEvent::IntroBuilt { circuit: Ok(intro), rp_hop: Ok(hop) },
            ) => {
                let cookie: [u8; 20] = self.await_service(rp, resolved.intro_pub);
                let data: Vec<u8> = EstablishRendezvous { cookie }.encode();
                (Visit::Arranging { rp, end, intro, cookie }, VisitStep::Arrange(hop, data))
            },
            (
                Visit::Arranging { rp, end, intro, cookie },
                VisitEvent::Established(Err(why)),
            ) => {
                let r: VisitStep = give_up(
                    FetchStage::Establish,
                    why.as_str(),
                    Some(rp),
                    Some(intro),
                );
                (Visit::Arranging { rp, end, intro, cookie }, r)
            },
            (Visit::Arranging { rp, end, intro, cookie }, VisitEvent::Established(Ok(_))) => {
                let sent: Result<Vec<u8>, Error> = self.introduce1_data(
                    &resolved.intro_pub,
                    &resolved.intro_pub,
                    end.node_id,
                    end.host.clone(),
                    end.port,
                    cookie,
                );
                match sent {
                    Ok(data) => (Visit::Introducing { rp, intro }, VisitStep::Introduce(data)),
                    Err(_) => {
                        let r: VisitStep = give_up(
                            FetchStage::Introduce,
                            "send_introduce1: no pending_rendezvous for this cookie — call establish_rendezvous_on first",
                            Some(rp),
                            Some(intro),
                        );
                        (Visit::Arranging { rp, end, intro, cookie }, r)
                    },
                }
            },
            (Visit::Introducing { rp, intro }, VisitEvent::Introduced(Err(why))) => {
                let r: VisitStep = give_up(
                    FetchStage::Introduce,
                    why.as_str(),
                    Some(rp),
                    Some(intro),
                );
                (Visit::Introducing { rp, intro }, r)
            },
            (Visit::Introducing { rp, intro }, VisitEvent::Introduced(Ok(_))) => (
                Visit::Awaiting { rp },
                VisitStep::Await(intro),
            ),
            (Visit::Awaiting { rp }, VisitEvent::Met(Meeting::Ready)) => (
                Visit::Asking { rp },
                VisitStep::Ask(request_for(path)),
            ),
            (Visit::Awaiting { rp }, VisitEvent::Met(Meeting::Refused(error))) => (
                Visit::Awaiting { rp },
                VisitStep::Fail { error, destroy: Vec::new(), forget: None },
            ),
            (Visit::Awaiting { rp }, VisitEvent::Met(Meeting::Canceled)) => {
                (Visit::Awaiting { rp }, give_up(FetchStage::Canceled, "", Some(rp), None))
            },
            (Visit::Awaiting { rp }, VisitEvent::Met(Meeting::TimedOut)) => {
                (Visit::Awaiting { rp }, give_up(FetchStage::TimedOut, "", Some(rp), None))
            },
            (Visit::Asking { rp }, VisitEvent::Answered(Ok(page))) => (
                Visit::Asking { rp },
                VisitStep::Done(page),
            ),
            (Visit::Asking { rp }, VisitEvent::Answered(Err(error))) => {
                let mut destroy: Vec<u32> = Vec::new();
                destroy.push(rp);
                assert(destroy@ =~= seq![rp]);
                (Visit::Asking { rp }, VisitStep::Fail { error, destroy, forget: None })
            },
            (v, _) => (v, VisitStep::Wait),
        }
    }
}

/// The circuits that stand for a visit once the event happened. The last hop of a
/// rendezvous circuit is the meeting point: one without hops does not stand.
pub open spec fn standing(v: Visit, e: VisitEvent) -> Seq<u32> {
    match (v, e) {
        (Visit::Opening, VisitEvent::RpBuilt(Ok((rp, hops)))) => if hops@.len() > 0 {
            seq![rp]
        } else {
            Seq::empty()
        },
        (Visit::Approaching { rp, .. }, VisitEvent::IntroBuilt { circuit: Ok(intro), .. }) => seq![
            intro,
            rp,
        ],
        _ => circuits(v),
    }
}

/// A visit that fails leaves no circuit behind: all that stand for it are taken down,
/// unless the service's answer was refused, which took the circuit down already.
pub proof fn law_failed_visits_leave_nothing_behind(
    before: PhiNode,
    after: PhiNode,
    v: Visit,
    e: VisitEvent,
    x: ResolvedIntro,
    c: ConsensusDocument,
    path: Seq<char>,
    w: Visit,
    r: VisitStep,
)
    requires
        goes_on(before, after, v, e, x, c, path, w, r),
        r is Fail,
        !(e matches VisitEvent::Met(Meeting::Refused(_))),
    ensures
        r->destroy@ == standing(v, e),
{
    match (v, e) {
        (Visit::Opening, VisitEvent::RpBuilt(Ok((rp, hops)))) => {
            if hops@.len() > 0 {
                let (ex, own) = choose|ex: Seq<String>, own: Seq<String>| #[trigger]
                    approaches(w, r, rp, hops@, text::hex_of(before.node_id@), c, x, ex, own);
                assert(approaches(w, r, rp, hops@, text::hex_of(before.node_id@), c, x, ex, own));
            }
        },
        (
            Visit::Approaching { rp, end },
            VisitEvent::IntroBuilt { circuit: Ok(intro), rp_hop: Err(why) },
        ) => {
            assert(seq![intro] + circuits(v) =~= seq![intro, rp]);
        },
        _ => {},
    }
}

/// The page is asked for only after the service came, and the service is waited for only
/// after the introduction was sent.
pub proof fn law_pages_are_asked_of_the_service(
    before: PhiNode,
    after: PhiNode,
    v: Visit,
    e: VisitEvent,
    x: ResolvedIntro,
    c: ConsensusDocument,
    path: Seq<char>,
    w: Visit,
    r: VisitStep,
)
    requires
        goes_on(before, after, v, e, x, c, path, w, r),
    ensures
        r is Ask ==> v is Awaiting && e == VisitEvent::Met(Meeting::Ready),
        r is Await ==> v is Introducing && e matches VisitEvent::Introduced(Ok(_)),
        r is Introduce ==> v is Arranging && e matches VisitEvent::Established(Ok(_)),
        r is Done ==> v is Asking,
{
    if let (Visit::Opening, VisitEvent::RpBuilt(Ok((rp, hops)))) = (v, e) {
        if hops@.len() > 0 {
            let (ex, own) = choose|ex: Seq<String>, own: Seq<String>| #[trigger]
                approaches(w, r, rp, hops@, text::hex_of(before.node_id@), c, x, ex, own);
            assert(approaches(w, r, rp, hops@, text::hex_of(before.node_id@), c, x, ex, own));
        }
    }
}

/// A visit takes its steps in turn, each once the one before it succeeded: the cookie is
/// arranged over the rendezvous circuit, the service introduced over the other, then
/// awaited, then asked for the path, and what it answers is handed out.
pub proof fn law_a_visit_takes_its_steps_in_turn(
    before: PhiNode,
    after: PhiNode,
    v: Visit,
    e: VisitEvent,
    x: &ResolvedIntro,
    c: &ConsensusDocument,
    path: &str,
    o: (Visit, VisitStep),
)
    requires
        exists|n: &mut PhiNode, rng: &mut rand::rngs::StdRng|
            *n == before && *final(n) == after && #[trigger] call_ensures(
                PhiNode::hs_fetch,
                (n, v, e, x, c, rng, path),
                o,
            ),
    ensures
        v is Approaching && e is IntroBuilt && e->circuit is Ok && e->rp_hop is Ok ==> o.0 is Arranging && o.1 is Arrange
            && o.1->Arrange_0 == e->rp_hop->Ok_0 && o.1->Arrange_1@ == after.pending_rendezvous@.last().cookie@,
        v is Introducing && e is Introduced && e->Introduced_0 is Ok ==> o.0 is Awaiting && o.1 == VisitStep::Await(
            v->Introducing_intro,
        ) && o.0->Awaiting_rp == v->Introducing_rp,
        v is Awaiting && e == VisitEvent::Met(Meeting::Ready) ==> o.0 is Asking && o.1 is Ask && o.0->Asking_rp
            == v->Awaiting_rp && o.1->Ask_0@ == encode_utf8("GET "@ + path@),
        v is Asking && e is Answered && e->Answered_0 is Ok ==> o.1 == VisitStep::Done(e->Answered_0->Ok_0),
        v is Asking && e is Answered && e->Answered_0 is Err ==> o.1 is Fail && o.1->error == e->Answered_0->Err_0,
        v is Opening && e is RpBuilt && e->RpBuilt_0 is Err ==> o.1 is Fail && o.1->destroy@.len() == 0,
        v is Approaching && e is IntroBuilt && (e->circuit is Err || e->rp_hop is Err) ==> o.1 is Fail,
        v is Arranging && e is Established && e->Established_0 is Err ==> o.1 is Fail && o.1->destroy@.contains(
            v->Arranging_rp,
        ) && o.1->destroy@.contains(v->Arranging_intro),
        v is Introducing && e is Introduced && e->Introduced_0 is Err ==> o.1 is Fail && o.1->destroy@.contains(
            v->Introducing_rp,
        ) && o.1->destroy@.contains(v->Introducing_intro) && o.1->forget == Some(v->Introducing_rp),
        v is Awaiting && e == VisitEvent::Met(Meeting::TimedOut) ==> o.1 is Fail && o.1->destroy@.contains(
            v->Awaiting_rp,
        ) && o.1->forget == Some(v->Awaiting_rp),
        v is Awaiting && e == VisitEvent::Met(Meeting::Canceled) ==> o.1 is Fail && o.1->destroy@ == seq![
            v->Awaiting_rp,
        ] && o.1->forget is None,
        v is Awaiting && e is Met && e->Met_0 is Refused ==> o.1 is Fail && o.1->error == e->Met_0->Refused_0
            && o.1->destroy@.len() == 0,
        o.1 is Fail ==> o.0 == v,
        !(o.1 is Arrange) ==> after == before,
{
    if v is Arranging && e is Established && e->Established_0 is Err {
        assert(o.1->destroy@[0] == v->Arranging_intro);
        assert(o.1->destroy@[1] == v->Arranging_rp);
    }
    if v is Introducing && e is Introduced && e->Introduced_0 is Err {
        assert(o.1->destroy@[0] == v->Introducing_intro);
        assert(o.1->destroy@[1] == v->Introducing_rp);
    }
    if v is Awaiting && e == VisitEvent::Met(Meeting::TimedOut) {
        assert(o.1->destroy@[0] == v->Awaiting_rp);
    }
    if let (Visit::Opening, VisitEvent::RpBuilt(Ok((rp, hops)))) = (v, e) {
        if hops@.len() > 0 {
            let (ex, own) = choose|ex: Seq<String>, own: Seq<String>| #[trigger]
                approaches(o.0, o.1, rp, hops@, text::hex_of(before.node_id@), *c, *x, ex, own);
            assert(approaches(o.0, o.1, rp, hops@, text::hex_of(before.node_id@), *c, *x, ex, own));
        }
    }
}

/// The way to the service ends, behind two other hops, at the node and under the key that
/// its descriptor names.
pub proof fn law_the_approach_ends_at_the_service(
    before: PhiNode,
    after: PhiNode,
    rp: u32,
    hops: Vec<LinkSpec>,
    x: &ResolvedIntro,
    c: &ConsensusDocument,
    path: &str,
    w: Visit,
    specs: Vec<LinkSpec>,
)
    requires
        exists|n: &mut PhiNode, rng: &mut rand::rngs::StdRng|
            *n == before && *final(n) == after && #[trigger] call_ensures(
                PhiNode::hs_fetch,
                (n, Visit::Opening, VisitEvent::RpBuilt(Ok((rp, hops))), x, c, rng, path),
                (w, VisitStep::Approach(specs)),
            ),
    ensures
        hops@.len() > 0,
        w is Approaching && w->Approaching_rp == rp && w->Approaching_end == hops@.last(),
        specs@.len() == 3,
        specs@[2].node_id@ == x.intro_node_id@,
        specs@[2].static_pub@ == x.intro_pub@,
{
    let me = text::hex_of(before.node_id@);
    let r = VisitStep::Approach(specs);
    let hs = text::hex_of(x.intro_node_id@);
    if hops@.len() > 0 {
        let (ex, own) = choose|ex: Seq<String>, own: Seq<String>| #[trigger]
            approaches(w, r, rp, hops@, me, *c, *x, ex, own);
        assert(approaches(w, r, rp, hops@, me, *c, *x, ex, own));
        let p = choose|p: SelectedPath| #[trigger] is_way(p, *c, ex, own, hs) && leads_in(specs@, p, *x);
        assert(is_way(p, *c, ex, own, hs) && leads_in(specs@, p, *x));
        assert(p.hops@.len() == 3);
    }
}

/// The way in to a service is what its descriptor resolves to. One that is signed, and whose
/// key can be read, has a way in, unless it is for chosen clients and no credential opens it.
pub proof fn law_the_way_in(
    d: &HsDescriptor,
    attempts: Vec<Result<Option<IntroSecret>, Error>>,
    r: Result<ResolvedIntro, Error>,
    e: Error,
    unsigned: Result<ResolvedIntro, Error>,
    none: Vec<Result<Option<IntroSecret>, Error>>,
    locked: Result<ResolvedIntro, Error>,
    secret: &HsDescriptor,
)
    requires
        !d.client_auth,
        call_ensures(way_in, (d, Ok(()), attempts), r),
        call_ensures(way_in, (d, Err(e), attempts), unsigned),
        secret.client_auth,
        none@.len() == 0,
        call_ensures(way_in, (secret, Ok(()), none), locked),
    ensures
        r is Ok <==> text::is_hex(d.intro_pub@) && d.intro_pub@.len() == 64,
        r is Ok ==> text::hex_of(r->Ok_0.intro_pub@) == text::lowered(d.intro_pub@) && r->Ok_0.intro_host
            == d.intro_host && r->Ok_0.intro_port == d.intro_port,
        unsigned == Err::<ResolvedIntro, Error>(e),
        locked is Err && (locked->Err_0 matches Error::Handshake(t) && t@
            == "hs_fetch: not authorized for this client-auth service"@),
{
    if text::is_hex(d.intro_pub@) {
        text::lemma_unhex_lowered(d.intro_pub@);
    }
}

/// Once the cookie is arranged the service is introduced over the circuit to it, with the
/// key that waits under the cookie; a cookie that nobody waits under ends the visit.
pub proof fn law_the_service_is_introduced(
    before: PhiNode,
    after: PhiNode,
    rp: u32,
    end: LinkSpec,
    intro: u32,
    cookie: [u8; 20],
    x: &ResolvedIntro,
    c: &ConsensusDocument,
    path: &str,
    o: (Visit, VisitStep),
)
    requires
        exists|n: &mut PhiNode, rng: &mut rand::rngs::StdRng|
            *n == before && *final(n) == after && #[trigger] call_ensures(
                PhiNode::hs_fetch,
                (
                    n,
                    (Visit::Arranging { rp, end, intro, cookie }),
                    VisitEvent::Established(Ok(())),
                    x,
                    c,
                    rng,
                    path,
                ),
                o,
            ),
    ensures
        after == before,
        o.1 is Introduce <==> meeting::cookie_at(before.pending_rendezvous@, cookie@) < before.pending_rendezvous@.len(),
        o.1 is Introduce ==> o.0 == (Visit::Introducing { rp, intro }),
        !(o.1 is Introduce) ==> o.1 is Fail && o.1->destroy@.contains(rp) && o.1->destroy@.contains(intro),
{
    if !(o.1 is Introduce) {
        assert(o.1->destroy@[0] == intro);
        assert(o.1->destroy@[1] == rp);
    }
}

} // verus!
