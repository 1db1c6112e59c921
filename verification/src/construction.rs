//! A circuit that is being built, from the first look at its path to its last hop.

use crate::building;
use crate::building::{BUILD_POLL_MILLIS, BuildStep, check_path_length, guard_step, hop_step};
use crate::circuit::LinkSpec;
use crate::errors::Error;
use crate::node::PhiNode;
use crate::path_bias::GuardStats;
use crate::text;
use crate::text::hex_encode;
use vstd::prelude::*;
use vstd::string::*;

verus! {

/// How far a circuit has come.
#[derive(Debug, Clone, Copy, PartialEq, Eq, Structural)]
pub enum Stage {
    /// Nothing was done yet.
    New,
    /// The guard is being dialled.
    Linking,
    /// The guard is being asked for a circuit.
    Requesting,
    /// The hop with this number is waited for.
    Hop(usize),
    /// The hop with this number is being asked for.
    Extending(usize),
    /// The circuit stands, or never will.
    Over,
}

/// A circuit that is being built.
#[derive(Debug)]
pub struct Construction {
    /// The way that it goes.
    pub path: Vec<LinkSpec>,
    pub stage: Stage,
}

/// What happened.
#[derive(Debug)]
pub enum Progress {
    /// The circuit is wanted.
    Begin,
    /// The guard was dialled.
    Dialled(Result<(), String>),
    /// The guard was asked for a circuit, or could not be.
    Requested(Result<(), Error>),
    /// The next hop was asked for, or could not be.
    Extended(Result<(), Error>),
    /// So many hops stand; the hop that is waited for is late.
    Looked { hops: Option<usize>, late: bool },
}

impl Construction {
    /// Past the first stages there is a guard, and the hop that is waited for is one of
    /// the path.
    pub open spec fn wf(self) -> bool {
        match self.stage {
            Stage::New | Stage::Over => true,
            Stage::Linking | Stage::Requesting => self.path@.len() > 0,
            Stage::Hop(i) | Stage::Extending(i) => i < self.path@.len(),
        }
    }

    /// A circuit that goes along the path.
    pub fn along(path: Vec<LinkSpec>) -> (r: Self)
        ensures
            r.path == path,
            r.stage == Stage::New,
            r.wf(),
    {
        Construction { path, stage: Stage::New }
    }
}

/// The name under which the outcomes of a path's guard are counted.
pub open spec fn guard_name(path: Seq<LinkSpec>) -> Seq<char> {
    text::hex_of(path[0].node_id@)
}

/// The guard's attempts and successes can be counted once more.
pub open spec fn can_count(n: PhiNode, path: Seq<LinkSpec>) -> bool {
    path.len() > 0 ==> {
        let s = n.path_bias.counts(guard_name(path));
        s.attempts < u32::MAX && s.successes < u32::MAX
    }
}

/// `after` is `before` with one more attempt and one more success of the guard, as far
/// as they are to be counted.
pub open spec fn counted(
    before: PhiNode,
    after: PhiNode,
    path: Seq<LinkSpec>,
    attempt: bool,
    success: bool,
) -> bool {
    let s = before.path_bias.counts(guard_name(path));
    &&& after == (PhiNode { path_bias: after.path_bias, ..before })
    &&& if attempt || success {
        after.path_bias@ == before.path_bias@.insert(
            guard_name(path),
            (GuardStats {
                attempts: if attempt {
                    (s.attempts + 1) as u32
                } else {
                    s.attempts
                },
                successes: if success {
                    (s.successes + 1) as u32
                } else {
                    s.successes
                },
            }),
        )
    } else {
        after.path_bias == before.path_bias
    }
}

/// The stage after the step `r` towards the guard.
pub open spec fn stage_after_guard(r: BuildStep) -> Stage {
    match r {
        BuildStep::Dial => Stage::Linking,
        BuildStep::Start => Stage::Requesting,
        _ => Stage::Over,
    }
}

/// The stage after the step `r` of a circuit whose hop `i` was waited for.
pub open spec fn stage_after_hop(r: BuildStep, i: usize) -> Stage {
    match r {
        BuildStep::Extend(k) => Stage::Extending(k),
        BuildStep::Wait(_) => Stage::Hop(i),
        _ => Stage::Over,
    }
}

/// The text of the error for a path of the wrong length.
pub open spec fn length_text(n: nat, max: nat) -> Seq<char> {
    "build_circuit: path length "@ + text::decimal(n) + " out of range [1,"@ + text::decimal(max)
        + "]"@
}

/// From the stage `s` the event leads to the stage `t` and the step `r`. `linked` says
/// whether the guard is linked.
pub open spec fn advances(
    path: Seq<LinkSpec>,
    s: Stage,
    e: Progress,
    linked: bool,
    max: usize,
    t: Stage,
    r: BuildStep,
) -> bool {
    match (s, e) {
        (Stage::New, Progress::Begin) => if 1 <= path.len() <= max {
            building::guard_does(r, path[0], linked, None) && t == stage_after_guard(r)
        } else {
            building::build_fails(r, length_text(path.len(), max as nat)) && t == Stage::Over
        },
        (Stage::Linking, Progress::Dialled(d)) => building::guard_does(
            r,
            path[0],
            linked,
            match d {
                Ok(_) => Some(Ok(())),
                Err(x) => Some(Err(x@)),
            },
        ) && t == stage_after_guard(r),
        (Stage::Requesting, Progress::Requested(Ok(_))) => r == BuildStep::Wait(0) && t
            == Stage::Hop(0),
        (Stage::Requesting, Progress::Requested(Err(x))) => r == BuildStep::Fail(x) && t
            == Stage::Over,
        (Stage::Hop(i), Progress::Looked { hops, late }) => building::hop_does(
            r,
            path.len() as usize,
            i,
            hops,
            late,
        ) && t == stage_after_hop(r, i),
        (Stage::Extending(i), Progress::Extended(Ok(_))) => r == BuildStep::Wait(0) && t
            == Stage::Hop(i),
        (Stage::Extending(i), Progress::Extended(Err(x))) => r == BuildStep::Fail(x) && t
            == Stage::Over,
        _ => r == BuildStep::Wait(BUILD_POLL_MILLIS) && t == s,
    }
}

/// The event is the one by which the guard takes the circuit.
pub open spec fn is_taken(s: Stage, e: Progress) -> bool {
    s == Stage::Requesting && e matches Progress::Requested(Ok(_))
}

impl PhiNode {
    /// Takes a circuit that is being built one step further. The guard's attempts are
    /// counted from when it takes the circuit, its successes when the circuit stands. An
    /// event that was not waited for changes nothing.
    pub fn build_circuit(&mut self, c: Construction, e: Progress, max: usize) -> (r: (
        Construction,
        BuildStep,
    ))
        requires
            old(self).wf(),
            c.wf(),
            can_count(*old(self), c.path@),
        ensures
            final(self).wf(),
            r.0.wf(),
            r.0.path == c.path,
            advances(
                c.path@,
                c.stage,
                e,
                c.path@.len() > 0 && old(self).peers@.contains_key(c.path@[0].node_id@),
                max,
                r.0.stage,
                r.1,
            ),
            counted(
                *old(self),
                *final(self),
                c.path@,
                is_taken(c.stage, e),
                r.1 is Finish,
            ),
    {
        match (c.stage, e) {
            (Stage::New, Progress::Begin) => {
                match check_path_length(c.path.len(), max) {
                    Err(x) => {
                        return (Construction { stage: Stage::Over, path: c.path }, BuildStep::Fail(x));
                    },
                    Ok(_) => {},
                }
                let linked: bool = self.peers.contains(&c.path[0].node_id);
                let r: BuildStep = guard_step(&c.path[0], linked, None);
                after_guard(c.path, r)
            },
            (Stage::Linking, Progress::Dialled(d)) => {
                let linked: bool = self.peers.contains(&c.path[0].node_id);
                let r: BuildStep = guard_step(&c.path[0], linked, Some(d));
                after_guard(c.path, r)
            },
            (Stage::Requesting, Progress::Requested(Ok(_))) => {
                let name: String = hex_encode(&c.path[0].node_id);
                self.path_bias.note_attempt(name.as_str());
                (Construction { stage: Stage::Hop(0), path: c.path }, BuildStep::Wait(0))
            },
            (Stage::Requesting, Progress::Requested(Err(x))) => (
                Construction { stage: Stage::Over, path: c.path },
                BuildStep::Fail(x),
            ),
            (Stage::Hop(i), Progress::Looked { hops, late }) => {
                let r: BuildStep = hop_step(c.path.len(), i, hops, late);
                let stage: Stage = match &r {
                    BuildStep::Extend(k) => Stage::Extending(*k),
                    BuildStep::Wait(_) => Stage::Hop(i),
                    _ => Stage::Over,
                };
                match &r {
                    BuildStep::Finish => {
                        let name: String = hex_encode(&c.path[0].node_id);
                        self.path_bias.note_success(name.as_str());
                    },
                    _ => {},
                }
                (Construction { stage, path: c.path }, r)
            },
            (Stage::Extending(i), Progress::Extended(Ok(_))) => (
                Construction { stage: Stage::Hop(i), path: c.path },
                BuildStep::Wait(0),
            ),
            (Stage::Extending(_), Progress::Extended(Err(x))) => (
                Construction { stage: Stage::Over, path: c.path },
                BuildStep::Fail(x),
            ),
            (stage, _) => (
                Construction { stage, path: c.path },
                BuildStep::Wait(BUILD_POLL_MILLIS),
            ),
        }
    }
}

fn after_guard(path: Vec<LinkSpec>, r: BuildStep) -> (o: (Construction, BuildStep))
    ensures
        o.0.path == path,
        o.0.stage == stage_after_guard(r),
        o.1 == r,
{
    let stage: Stage = match &r {
        BuildStep::Dial => Stage::Linking,
        BuildStep::Start => Stage::Requesting,
        _ => Stage::Over,
    };
    (Construction { stage, path }, r)
}

/// A guard is counted for what it had a hand in alone: a circuit that fails before the
/// guard took it leaves no trace, and one that stands was counted as an attempt before.
pub proof fn law_unreachable_guards_are_not_blamed(
    before: PhiNode,
    after: PhiNode,
    path: Seq<LinkSpec>,
    s: Stage,
    e: Progress,
    linked: bool,
    max: usize,
    t: Stage,
    r: BuildStep,
)
    requires
        advances(path, s, e, linked, max, t, r),
        counted(before, after, path, is_taken(s, e), r is Finish),
    ensures
        (s is New || s is Linking) ==> after.path_bias == before.path_bias,
        s is Requesting && r is Fail ==> after.path_bias == before.path_bias,
        r is Finish ==> s is Hop,
        t is Hop && !(s is Hop) && !(s is Extending) ==> is_taken(s, e),
{
}

/// A circuit is built in order: the hop that is asked for next is the one behind the
/// last that stands, and the circuit is over when the last hop of the path stands.
pub proof fn law_circuits_grow_hop_by_hop(
    path: Seq<LinkSpec>,
    i: usize,
    hops: Option<usize>,
    late: bool,
    linked: bool,
    max: usize,
    t: Stage,
    r: BuildStep,
)
    requires
        i < path.len() <= usize::MAX,
        advances(path, Stage::Hop(i), Progress::Looked { hops, late }, linked, max, t, r),
    ensures
        t matches Stage::Extending(k) ==> k == i + 1 && k < path.len() && (hops matches Some(h) && h
            >= k),
        r is Finish ==> i + 1 == path.len() && (hops matches Some(h) && h >= path.len()),
{
}

/// A construction goes on with what just happened: it starts with its guard, asks for the
/// first hop once the guard is linked, waits for each hop it asked for, and ends with the
/// first failure. What does not belong to where it stands changes nothing.
pub proof fn law_a_construction_goes_on(
    before: PhiNode,
    after: PhiNode,
    c: Construction,
    e: Progress,
    max: usize,
    r: (Construction, BuildStep),
)
    requires
        c.wf(),
        c.path@.len() <= usize::MAX,
        exists|n: &mut PhiNode|
            *n == before && *final(n) == after && #[trigger] call_ensures(PhiNode::build_circuit, (n, c, e, max), r),
    ensures
        r.0.path == c.path,
        c.stage is New && e is Begin && 1 <= c.path@.len() <= max && before.peers@.contains_key(
            c.path@[0].node_id@,
        ) ==> r.1 is Start && r.0.stage is Requesting,
        c.stage is New && e is Begin && 1 <= c.path@.len() <= max && !before.peers@.contains_key(
            c.path@[0].node_id@,
        ) ==> r.1 is Dial && r.0.stage is Linking,
        c.stage is New && e is Begin && (c.path@.len() == 0 || c.path@.len() > max) ==> r.1 is Fail && r.0.stage is Over,
        c.stage is Linking && e is Dialled && e->Dialled_0 is Ok && before.peers@.contains_key(
            c.path@[0].node_id@,
        ) ==> r.1 is Start && r.0.stage is Requesting,
        c.stage is Linking && e is Dialled && e->Dialled_0 is Err ==> r.1 is Fail && r.0.stage is Over,
        c.stage is Linking && e is Dialled && e->Dialled_0 is Ok && !before.peers@.contains_key(
            c.path@[0].node_id@,
        ) ==> r.1 is Fail && r.0.stage is Over,
        (e matches Progress::Looked { hops, late } && c.stage is Hop) ==> ({
            let i = c.stage->Hop_0;
            let grown = e->hops is Some && e->hops->0 > i;
            &&& grown && i + 1 == c.path@.len() ==> r.1 is Finish
            &&& grown && i + 1 < c.path@.len() ==> r.1 == BuildStep::Extend((i + 1) as usize) && r.0.stage
                == Stage::Extending((i + 1) as usize)
            &&& !grown && !e->late ==> r.1 == BuildStep::Wait(50) && r.0.stage == c.stage
            &&& !grown && e->late ==> r.1 is Fail
        }),
        c.stage is Requesting && e is Requested && e->Requested_0 is Ok ==> r.1 == BuildStep::Wait(0) && r.0.stage
            == Stage::Hop(0),
        c.stage is Requesting && e is Requested && e->Requested_0 is Err ==> r.1 == BuildStep::Fail(
            e->Requested_0->Err_0,
        ) && r.0.stage is Over,
        c.stage is Extending && e is Extended && e->Extended_0 is Ok ==> r.1 == BuildStep::Wait(0) && r.0.stage == Stage::Hop(
            c.stage->Extending_0,
        ),
        c.stage is Extending && e is Extended && e->Extended_0 is Err ==> r.1 == BuildStep::Fail(
            e->Extended_0->Err_0,
        ) && r.0.stage is Over,
        c.stage is Over ==> r.1 is Wait && r.0.stage is Over,
        r.1 is Fail || r.1 is Finish ==> r.0.stage is Over,
{
}

/// An attempt counts for the guard once the first hop was asked of it, and a success once
/// the whole path stands; nothing else counts, and nothing counts for another guard.
pub proof fn law_attempts_and_successes_are_counted(
    before: PhiNode,
    after: PhiNode,
    c: Construction,
    e: Progress,
    max: usize,
    r: (Construction, BuildStep),
    other: Seq<char>,
)
    requires
        c.wf(),
        c.path@.len() > 0,
        can_count(before, c.path@),
        other != text::hex_of(c.path@[0].node_id@),
        exists|n: &mut PhiNode|
            *n == before && *final(n) == after && #[trigger] call_ensures(PhiNode::build_circuit, (n, c, e, max), r),
    ensures
        ({
            let g = text::hex_of(c.path@[0].node_id@);
            let asked = c.stage is Requesting && e is Requested && e->Requested_0 is Ok;
            &&& after.path_bias.counts(g).attempts == before.path_bias.counts(g).attempts + if asked {
                1int
            } else {
                0
            }
            &&& after.path_bias.counts(g).successes == before.path_bias.counts(g).successes + if r.1 is Finish {
                1int
            } else {
                0
            }
        }),
        after.path_bias.counts(other) == before.path_bias.counts(other),
        after.peers == before.peers,
{
}

} // verus!
