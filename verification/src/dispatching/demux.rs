use vstd::prelude::*;
use crate::dispatching::channel::{Channel, SendError};
use crate::dispatching::error_policy::ErrorPolicy;
use crate::types::update::{Discriminant, TaggedEvent};

verus! {

// ------------------------------------------------------------------
// The partition, as mathematics
// ------------------------------------------------------------------

/// No two arms are declared for the same discriminant.
pub open spec fn pairwise_distinct(arms: Seq<Discriminant>) -> bool {
    forall|i: int, j: int| 0 <= i < j < arms.len() ==> arms[i] != arms[j]
}

/// The events of `s` whose discriminant is `d`, in source order.
pub open spec fn filter_disc(s: Seq<TaggedEvent>, d: Discriminant) -> Seq<TaggedEvent>
    decreases s.len(),
{
    if s.len() == 0 {
        Seq::empty()
    } else {
        let rest = filter_disc(s.drop_last(), d);
        if s.last().disc() == d {
            rest.push(s.last())
        } else {
            rest
        }
    }
}

/// The index of the first arm declared for `d`, if any.
pub open spec fn arm_for(arms: Seq<Discriminant>, d: Discriminant) -> Option<int>
    decreases arms.len(),
{
    if arms.len() == 0 {
        None
    } else if arms[0] == d {
        Some(0)
    } else {
        match arm_for(arms.drop_first(), d) {
            Some(i) => Some(i + 1),
            None => None,
        }
    }
}

/// Whether some arm is declared for the discriminant of `e`.
pub open spec fn is_matched(arms: Seq<Discriminant>, e: TaggedEvent) -> bool {
    arm_for(arms, e.disc()) is Some
}

/// The events of `s` that no arm matches, in source order.
pub open spec fn unmatched_of(s: Seq<TaggedEvent>, arms: Seq<Discriminant>) -> Seq<TaggedEvent>
    decreases s.len(),
{
    if s.len() == 0 {
        Seq::empty()
    } else {
        let rest = unmatched_of(s.drop_last(), arms);
        if !is_matched(arms, s.last()) {
            rest.push(s.last())
        } else {
            rest
        }
    }
}

/// The position of the first event of `s` that no arm matches, if any.
pub open spec fn first_unmatched(s: Seq<TaggedEvent>, arms: Seq<Discriminant>) -> Option<int>
    decreases s.len(),
{
    if s.len() == 0 {
        None
    } else if !is_matched(arms, s[0]) {
        Some(0)
    } else {
        match first_unmatched(s.drop_first(), arms) {
            Some(i) => Some(i + 1),
            None => None,
        }
    }
}

pub proof fn lemma_arm_for(arms: Seq<Discriminant>, d: Discriminant)
    ensures
        match arm_for(arms, d) {
            Some(i) => 0 <= i < arms.len() && arms[i] == d && forall|j: int|
                0 <= j < i ==> arms[j] != d,
            None => forall|j: int| 0 <= j < arms.len() ==> arms[j] != d,
        },
    decreases arms.len(),
{
    if arms.len() > 0 && arms[0] != d {
        lemma_arm_for(arms.drop_first(), d);
        assert forall|j: int| 1 <= j < arms.len() implies arms.drop_first()[j - 1] == arms[j] by {}
    }
}

pub proof fn lemma_first_unmatched(s: Seq<TaggedEvent>, arms: Seq<Discriminant>)
    ensures
        match first_unmatched(s, arms) {
            Some(i) => 0 <= i < s.len() && !is_matched(arms, s[i]) && forall|j: int|
                0 <= j < i ==> is_matched(arms, s[j]),
            None => forall|j: int| 0 <= j < s.len() ==> is_matched(arms, s[j]),
        },
    decreases s.len(),
{
    if s.len() > 0 && is_matched(arms, s[0]) {
        lemma_first_unmatched(s.drop_first(), arms);
        assert forall|j: int| 1 <= j < s.len() implies s.drop_first()[j - 1] == s[j] by {}
    }
}

/// How the matched filter grows along a prefix of the source.
pub proof fn lemma_filter_take_step(s: Seq<TaggedEvent>, d: Discriminant, i: int)
    requires
        0 <= i < s.len(),
    ensures
        filter_disc(s.take(i + 1), d) == if s[i].disc() == d {
            filter_disc(s.take(i), d).push(s[i])
        } else {
            filter_disc(s.take(i), d)
        },
{
    assert(s.take(i + 1).drop_last() =~= s.take(i));
    assert(s.take(i + 1).last() == s[i]);
}

/// How the unmatched remainder grows along a prefix of the source.
pub proof fn lemma_unmatched_take_step(s: Seq<TaggedEvent>, arms: Seq<Discriminant>, i: int)
    requires
        0 <= i < s.len(),
    ensures
        unmatched_of(s.take(i + 1), arms) == if !is_matched(arms, s[i]) {
            unmatched_of(s.take(i), arms).push(s[i])
        } else {
            unmatched_of(s.take(i), arms)
        },
{
    assert(s.take(i + 1).drop_last() =~= s.take(i));
    assert(s.take(i + 1).last() == s[i]);
}

/// Membership in the matched filter: exactly the source events of the
/// filtered discriminant.
pub proof fn lemma_filter_membership(s: Seq<TaggedEvent>, d: Discriminant)
    ensures
        forall|k: int| 0 <= k < filter_disc(s, d).len() ==> (#[trigger] filter_disc(s, d)[k]).disc()
            == d && s.contains(filter_disc(s, d)[k]),
        forall|e: TaggedEvent| s.contains(e) && e.disc() == d ==> filter_disc(s, d).contains(e),
    decreases s.len(),
{
    if s.len() > 0 {
        lemma_filter_membership(s.drop_last(), d);
        let pre = s.drop_last();
        assert forall|k: int|
            0 <= k < filter_disc(s, d).len() implies (#[trigger] filter_disc(s, d)[k]).disc() == d
            && s.contains(filter_disc(s, d)[k]) by {
            if s.last().disc() == d && k == filter_disc(s, d).len() - 1 {
                assert(filter_disc(s, d)[k] == s.last());
                assert(s[s.len() - 1] == s.last());
            } else {
                assert(filter_disc(s, d)[k] == filter_disc(pre, d)[k]);
                assert(pre.contains(filter_disc(pre, d)[k]));
                let w = choose|w: int| 0 <= w < pre.len() && pre[w] == filter_disc(pre, d)[k];
                assert(s[w] == filter_disc(s, d)[k]);
            }
        }
        assert forall|e: TaggedEvent| s.contains(e) && e.disc() == d implies filter_disc(
            s,
            d,
        ).contains(e) by {
            let w = choose|w: int| 0 <= w < s.len() && s[w] == e;
            if w < s.len() - 1 {
                assert(pre[w] == e);
                assert(pre.contains(e));
                assert(filter_disc(pre, d).contains(e));
                let k = choose|k: int|
                    0 <= k < filter_disc(pre, d).len() && filter_disc(pre, d)[k] == e;
                assert(filter_disc(s, d)[k] == e);
            } else {
                assert(s.last() == e);
                assert(filter_disc(s, d).last() == e);
            }
        }
    }
}

/// Membership in the unmatched remainder: exactly the source events with
/// no declared arm.
pub proof fn lemma_unmatched_membership(s: Seq<TaggedEvent>, arms: Seq<Discriminant>)
    ensures
        forall|k: int| 0 <= k < unmatched_of(s, arms).len() ==> !is_matched(
            arms,
            #[trigger] unmatched_of(s, arms)[k],
        ) && s.contains(unmatched_of(s, arms)[k]),
        forall|e: TaggedEvent| s.contains(e) && !is_matched(arms, e) ==> unmatched_of(
            s,
            arms,
        ).contains(e),
    decreases s.len(),
{
    if s.len() > 0 {
        lemma_unmatched_membership(s.drop_last(), arms);
        let pre = s.drop_last();
        assert forall|k: int|
            0 <= k < unmatched_of(s, arms).len() implies !is_matched(
            arms,
            #[trigger] unmatched_of(s, arms)[k],
        ) && s.contains(unmatched_of(s, arms)[k]) by {
            if !is_matched(arms, s.last()) && k == unmatched_of(s, arms).len() - 1 {
                assert(unmatched_of(s, arms)[k] == s.last());
                assert(s[s.len() - 1] == s.last());
            } else {
                assert(unmatched_of(s, arms)[k] == unmatched_of(pre, arms)[k]);
                assert(pre.contains(unmatched_of(pre, arms)[k]));
                let w = choose|w: int|
                    0 <= w < pre.len() && pre[w] == unmatched_of(pre, arms)[k];
                assert(s[w] == unmatched_of(s, arms)[k]);
            }
        }
        assert forall|e: TaggedEvent| s.contains(e) && !is_matched(arms, e) implies unmatched_of(
            s,
            arms,
        ).contains(e) by {
            let w = choose|w: int| 0 <= w < s.len() && s[w] == e;
            if w < s.len() - 1 {
                assert(pre[w] == e);
                assert(pre.contains(e));
                assert(unmatched_of(pre, arms).contains(e));
                let k = choose|k: int|
                    0 <= k < unmatched_of(pre, arms).len() && unmatched_of(pre, arms)[k] == e;
                assert(unmatched_of(s, arms)[k] == e);
            } else {
                assert(s.last() == e);
                assert(unmatched_of(s, arms).last() == e);
            }
        }
    }
}

/// Where a source event lands inside its arm's output: after exactly the
/// earlier source events of the same discriminant.
pub proof fn lemma_filter_position(s: Seq<TaggedEvent>, d: Discriminant, i: int)
    requires
        0 <= i < s.len(),
        s[i].disc() == d,
    ensures
        filter_disc(s.take(i), d).len() < filter_disc(s, d).len(),
        filter_disc(s, d)[filter_disc(s.take(i), d).len() as int] == s[i],
    decreases s.len(),
{
    if i == s.len() - 1 {
        assert(s.take(i) =~= s.drop_last());
        assert(s.last() == s[i]);
    } else {
        lemma_filter_position(s.drop_last(), d, i);
        assert(s.drop_last().take(i) =~= s.take(i));
        assert(s.drop_last()[i] == s[i]);
    }
}

/// The matched filter of a longer prefix is never shorter.
pub proof fn lemma_filter_monotone(s: Seq<TaggedEvent>, d: Discriminant, i: int, j: int)
    requires
        0 <= i <= j <= s.len(),
    ensures
        filter_disc(s.take(i), d).len() <= filter_disc(s.take(j), d).len(),
    decreases j - i,
{
    if i < j {
        lemma_filter_monotone(s, d, i, j - 1);
        lemma_filter_take_step(s, d, j - 1);
    }
}

// ------------------------------------------------------------------
// The partition laws
// ------------------------------------------------------------------

/// Partition totality: every source event is owed to exactly one place.
/// An event with a declared arm appears in that arm's output, in no other
/// arm's output, and not among the unmatched; an event with no declared
/// arm appears among the unmatched and in no arm's output.
pub proof fn lemma_partition_totality(s: Seq<TaggedEvent>, arms: Seq<Discriminant>, i: int)
    requires
        0 <= i < s.len(),
    ensures
        match arm_for(arms, s[i].disc()) {
            Some(a) => filter_disc(s, arms[a]).contains(s[i]) && !unmatched_of(
                s,
                arms,
            ).contains(s[i]) && forall|b: int|
                0 <= b < arms.len() && arms[b] != arms[a] ==> !filter_disc(
                    s,
                    arms[b],
                ).contains(s[i]),
            None => unmatched_of(s, arms).contains(s[i]) && forall|b: int|
                0 <= b < arms.len() ==> !filter_disc(s, arms[b]).contains(s[i]),
        },
{
    lemma_arm_for(arms, s[i].disc());
    lemma_unmatched_membership(s, arms);
    assert(s.contains(s[i]));
    match arm_for(arms, s[i].disc()) {
        Some(a) => {
            lemma_filter_membership(s, arms[a]);
            assert forall|b: int|
                0 <= b < arms.len() && arms[b] != arms[a] implies !filter_disc(
                s,
                arms[b],
            ).contains(s[i]) by {
                lemma_filter_membership(s, arms[b]);
                if filter_disc(s, arms[b]).contains(s[i]) {
                    let k = choose|k: int|
                        0 <= k < filter_disc(s, arms[b]).len() && filter_disc(s, arms[b])[k]
                            == s[i];
                    assert(filter_disc(s, arms[b])[k].disc() == arms[b]);
                }
            }
        },
        None => {
            assert forall|b: int| 0 <= b < arms.len() implies !filter_disc(
                s,
                arms[b],
            ).contains(s[i]) by {
                lemma_filter_membership(s, arms[b]);
                if filter_disc(s, arms[b]).contains(s[i]) {
                    let k = choose|k: int|
                        0 <= k < filter_disc(s, arms[b]).len() && filter_disc(s, arms[b])[k]
                            == s[i];
                    assert(filter_disc(s, arms[b])[k].disc() == arms[b]);
                }
            }
        },
    }
}

/// Order preservation: two source events of the same discriminant appear
/// in that discriminant's output at positions in their source order.
pub proof fn lemma_order_preservation(s: Seq<TaggedEvent>, d: Discriminant, i: int, j: int)
    requires
        0 <= i < j < s.len(),
        s[i].disc() == d,
        s[j].disc() == d,
    ensures
        filter_disc(s.take(i), d).len() < filter_disc(s.take(j), d).len() < filter_disc(
            s,
            d,
        ).len(),
        filter_disc(s, d)[filter_disc(s.take(i), d).len() as int] == s[i],
        filter_disc(s, d)[filter_disc(s.take(j), d).len() as int] == s[j],
{
    lemma_filter_position(s, d, i);
    lemma_filter_position(s, d, j);
    lemma_filter_take_step(s, d, i);
    lemma_filter_monotone(s, d, i + 1, j);
}

/// No cross-arm contamination: an arm's output holds only events of that
/// arm's own discriminant.
pub proof fn lemma_no_cross_arm(s: Seq<TaggedEvent>, d: Discriminant, k: int)
    requires
        0 <= k < filter_disc(s, d).len(),
    ensures
        filter_disc(s, d)[k].disc() == d,
{
    lemma_filter_membership(s, d);
}

// ------------------------------------------------------------------
// Declared arms
// ------------------------------------------------------------------

/// The two positions of a doubly declared discriminant.
#[derive(Clone, Copy, Debug, PartialEq, Eq, Structural)]
pub struct DuplicateArm {
    pub first: usize,
    pub second: usize,
}

/// A validated arm declaration: a list of pairwise-distinct discriminants,
/// one per output.
#[derive(Clone, Debug, PartialEq)]
pub struct ArmSet {
    arms: Vec<Discriminant>,
}

impl ArmSet {
    /// The declared discriminants, in arm order.
    pub closed spec fn spec_arms(self) -> Seq<Discriminant> {
        self.arms@
    }

    pub open spec fn wf(self) -> bool {
        pairwise_distinct(self.spec_arms())
    }

    /// Validates a declaration: accepted exactly when no discriminant is
    /// declared twice; a duplicate is reported with both positions.
    #[verifier::loop_isolation(false)]
    pub fn new(arms: Vec<Discriminant>) -> (r: Result<Self, DuplicateArm>)
        ensures
            match r {
                Ok(a) => a.spec_arms() == arms@ && a.wf(),
                Err(e) => !pairwise_distinct(arms@) && e.first < e.second < arms@.len()
                    && arms@[e.first as int] == arms@[e.second as int],
            },
    {
        let n = arms.len();
        let mut i: usize = 0;
        while i < n
            invariant
                forall|a: int, b: int| 0 <= a < b < arms@.len() && a < i ==> arms@[a] != arms@[b],
            decreases n - i,
        {
            let mut j: usize = i + 1;
            while j < n
                invariant
                    i < j <= n,
                    forall|b: int| i < b < j ==> arms@[i as int] != arms@[b],
                decreases n - j,
            {
                if arms[i] == arms[j] {
                    return Err(DuplicateArm { first: i, second: j });
                }
                j = j + 1;
            }
            i = i + 1;
        }
        Ok(Self { arms })
    }

    pub fn len(&self) -> (r: usize)
        ensures
            r == self.spec_arms().len(),
    {
        self.arms.len()
    }

    /// The arm that `d` routes to, if one is declared for it. The scan is
    /// bounded by the closed set of discriminants, so it costs no more
    /// than a table lookup would.
    #[verifier::loop_isolation(false)]
    pub fn route(&self, d: Discriminant) -> (r: Option<usize>)
        ensures
            match r {
                Some(i) => arm_for(self.spec_arms(), d) == Some(i as int),
                None => arm_for(self.spec_arms(), d) is None,
            },
    {
        let ghost arms = self.spec_arms();
        proof {
            lemma_arm_for(arms, d);
        }
        let n = self.arms.len();
        let mut i: usize = 0;
        while i < n
            invariant
                i <= n,
                forall|k: int| 0 <= k < i ==> arms[k] != d,
            decreases n - i,
        {
            if self.arms[i] == d {
                return Some(i);
            }
            i = i + 1;
        }
        None
    }
}

// ------------------------------------------------------------------
// Pure partitioning and the batch driver
// ------------------------------------------------------------------

/// Splits one event sequence into one output per arm plus the unmatched
/// remainder. Pure routing: payloads are moved, never transformed.
#[verifier::loop_isolation(false)]
pub fn partition(events: Vec<TaggedEvent>, arms: &ArmSet) -> (r: (
    Vec<Vec<TaggedEvent>>,
    Vec<TaggedEvent>,
))
    requires
        arms.wf(),
    ensures
        r.0@.len() == arms.spec_arms().len(),
        forall|a: int| 0 <= a < arms.spec_arms().len() ==> r.0@[a]@ == filter_disc(
            events@,
            arms.spec_arms()[a],
        ),
        r.1@ == unmatched_of(events@, arms.spec_arms()),
{
    let ghost src = events@;
    let ghost sarms = arms.spec_arms();
    let mut events = events;
    let n_events = events.len();
    proof {
        assert(src.len() == n_events as int);
    }
    let n_arms = arms.len();
    let mut outputs: Vec<Vec<TaggedEvent>> = Vec::new();
    let mut k: usize = 0;
    while k < n_arms
        invariant
            k <= n_arms,
            outputs@.len() == k,
            forall|a: int| 0 <= a < k ==> outputs@[a]@ == Seq::<TaggedEvent>::empty(),
        decreases n_arms - k,
    {
        outputs.push(Vec::new());
        k = k + 1;
    }
    let mut rejected: Vec<TaggedEvent> = Vec::new();
    let ghost mut i: int = 0;
    proof {
        assert(src.take(0) =~= Seq::<TaggedEvent>::empty());
        assert(src.skip(0) =~= src);
    }
    while events.len() > 0
        invariant
            0 <= i <= src.len(),
            events@ == src.skip(i),
            outputs@.len() == sarms.len(),
            forall|a: int| 0 <= a < sarms.len() ==> outputs@[a]@ == filter_disc(
                src.take(i),
                sarms[a],
            ),
            rejected@ == unmatched_of(src.take(i), sarms),
        decreases events@.len(),
    {
        let e = events.remove(0);
        proof {
            assert(src.skip(i)[0] == src[i]);
            assert(src.skip(i).remove(0) =~= src.skip(i + 1));
        }
        let d = e.discriminant();
        proof {
            lemma_arm_for(sarms, d);
        }
        match arms.route(d) {
            Some(a) => {
                outputs[a].push(e);
                proof {
                    assert forall|b: int| 0 <= b < sarms.len() implies outputs@[b]@ == filter_disc(
                        src.take(i + 1),
                        sarms[b],
                    ) by {
                        lemma_filter_take_step(src, sarms[b], i);
                    }
                    lemma_unmatched_take_step(src, sarms, i);
                }
            },
            None => {
                rejected.push(e);
                proof {
                    assert forall|b: int| 0 <= b < sarms.len() implies outputs@[b]@ == filter_disc(
                        src.take(i + 1),
                        sarms[b],
                    ) by {
                        lemma_filter_take_step(src, sarms[b], i);
                    }
                    lemma_unmatched_take_step(src, sarms, i);
                }
            },
        }
        proof {
            i = i + 1;
        }
    }
    proof {
        assert(src.take(i) =~= src);
    }
    (outputs, rejected)
}

/// How a finished driver run ended.
#[derive(Clone, Copy, Debug, PartialEq, Eq, Structural)]
pub enum DriveStatus {
    /// The source was exhausted.
    Completed,
    /// The panicking policy aborted the pipeline at source index `at`,
    /// after every earlier event had been fully delivered and before any
    /// part of event `at` was.
    Halted { at: usize },
}

/// What a driver run produced: the per-arm outputs in source order, the
/// events the logging policy recorded, and how the run ended.
pub struct DriveOutcome {
    pub outputs: Vec<Vec<TaggedEvent>>,
    pub rejected: Vec<TaggedEvent>,
    pub status: DriveStatus,
}

/// Drives a finite source to completion against freely draining
/// consumers: each event goes to its arm's output, an unmatched event to
/// the configured policy. Under the panicking policy the run halts at the
/// first unmatched event, with exactly the earlier events delivered; under
/// the ignoring policy unmatched events are dropped; under the logging
/// policy they are recorded in order.
#[verifier::loop_isolation(false)]
pub fn drive(events: Vec<TaggedEvent>, arms: &ArmSet, policy: ErrorPolicy) -> (r: DriveOutcome)
    requires
        arms.wf(),
    ensures
        r.outputs@.len() == arms.spec_arms().len(),
        match r.status {
            DriveStatus::Halted { at } => policy is Panicking && first_unmatched(
                events@,
                arms.spec_arms(),
            ) == Some(at as int) && r.rejected@ == Seq::<TaggedEvent>::empty() && forall|a: int|
                0 <= a < arms.spec_arms().len() ==> r.outputs@[a]@ == filter_disc(
                    events@.take(at as int),
                    arms.spec_arms()[a],
                ),
            DriveStatus::Completed => (policy is Panicking ==> first_unmatched(
                events@,
                arms.spec_arms(),
            ) is None) && r.rejected@ == (if policy is Logging {
                unmatched_of(events@, arms.spec_arms())
            } else {
                Seq::<TaggedEvent>::empty()
            }) && forall|a: int|
                0 <= a < arms.spec_arms().len() ==> r.outputs@[a]@ == filter_disc(
                    events@,
                    arms.spec_arms()[a],
                ),
        },
{
    let ghost src = events@;
    let ghost sarms = arms.spec_arms();
    let mut events = events;
    let n_events = events.len();
    proof {
        assert(src.len() == n_events as int);
    }
    let n_arms = arms.len();
    let mut outputs: Vec<Vec<TaggedEvent>> = Vec::new();
    let mut k: usize = 0;
    while k < n_arms
        invariant
            k <= n_arms,
            outputs@.len() == k,
            forall|a: int| 0 <= a < k ==> outputs@[a]@ == Seq::<TaggedEvent>::empty(),
        decreases n_arms - k,
    {
        outputs.push(Vec::new());
        k = k + 1;
    }
    let mut rejected: Vec<TaggedEvent> = Vec::new();
    let mut pos: usize = 0;
    let ghost mut i: int = 0;
    proof {
        assert(src.take(0) =~= Seq::<TaggedEvent>::empty());
        assert(src.skip(0) =~= src);
    }
    while events.len() > 0
        invariant
            0 <= i <= src.len(),
            pos as int == i,
            events@ == src.skip(i),
            outputs@.len() == sarms.len(),
            forall|a: int| 0 <= a < sarms.len() ==> outputs@[a]@ == filter_disc(
                src.take(i),
                sarms[a],
            ),
            rejected@ == (if policy is Logging {
                unmatched_of(src.take(i), sarms)
            } else {
                Seq::<TaggedEvent>::empty()
            }),
            policy is Panicking ==> forall|j: int| 0 <= j < i ==> is_matched(sarms, src[j]),
        decreases events@.len(),
    {
        let e = events.remove(0);
        proof {
            assert(src.skip(i)[0] == src[i]);
            assert(src.skip(i).remove(0) =~= src.skip(i + 1));
        }
        let d = e.discriminant();
        proof {
            lemma_arm_for(sarms, d);
        }
        match arms.route(d) {
            Some(a) => {
                outputs[a].push(e);
            },
            None => {
                match policy {
                    ErrorPolicy::Panicking => {
                        proof {
                            lemma_first_unmatched(src, sarms);
                        }
                        return DriveOutcome {
                            outputs,
                            rejected,
                            status: DriveStatus::Halted { at: pos },
                        };
                    },
                    ErrorPolicy::Ignoring => {},
                    ErrorPolicy::Logging => {
                        rejected.push(e);
                    },
                }
            },
        }
        proof {
            assert forall|b: int| 0 <= b < sarms.len() implies outputs@[b]@ == filter_disc(
                src.take(i + 1),
                sarms[b],
            ) by {
                lemma_filter_take_step(src, sarms[b], i);
            }
            lemma_unmatched_take_step(src, sarms, i);
            i = i + 1;
        }
        pos = pos + 1;
    }
    proof {
        assert(src.take(i) =~= src);
        if policy is Panicking {
            lemma_first_unmatched(src, sarms);
        }
    }
    DriveOutcome { outputs, rejected, status: DriveStatus::Completed }
}

// ------------------------------------------------------------------
// The channelled demultiplexer
// ------------------------------------------------------------------

/// What became of one offered event.
pub enum Offer {
    /// Placed at the back of its arm's channel.
    Delivered { arm: usize },
    /// Its arm's channel is full; the state is unchanged and the event
    /// comes back, to be retried once the consumer advances.
    Blocked { arm: usize, event: TaggedEvent },
    /// No arm is declared for its discriminant; the event comes back for
    /// the error policy.
    Unmatched { event: TaggedEvent },
    /// Its arm's consumer is gone; treated like unmatched, the event
    /// comes back for the error policy.
    ClosedArm { arm: usize, event: TaggedEvent },
}

/// How a pump run ended.
#[derive(Clone, Copy, Debug, PartialEq, Eq, Structural)]
pub enum PumpStatus {
    /// The batch was exhausted.
    Completed,
    /// The driver suspended: event `at` routes to `arm`, whose channel
    /// was full. Nothing at or after `at` was delivered anywhere.
    Blocked { arm: usize, at: usize },
    /// The panicking policy aborted the pipeline at unmatched event `at`.
    Fatal { at: usize },
}

/// What a pump run produced.
pub struct PumpOutcome {
    pub status: PumpStatus,
    /// The unmatched events the logging policy recorded, in order.
    pub rejected: Vec<TaggedEvent>,
    /// The unprocessed tail of the batch, the blocking event first, when
    /// the run blocked; empty otherwise.
    pub remaining: Vec<TaggedEvent>,
}

/// The demultiplexer proper: the validated arms and one bounded channel
/// per arm. A single driver offers events in source order; consumers
/// drain their own channel independently.
pub struct Demux {
    arms: ArmSet,
    channels: Vec<Channel<TaggedEvent>>,
}

impl Demux {
    /// The declared discriminants, in arm order.
    pub closed spec fn spec_arms(self) -> Seq<Discriminant> {
        self.arms.spec_arms()
    }

    /// The queued contents of each arm's channel, oldest first.
    pub closed spec fn queues(self) -> Seq<Seq<TaggedEvent>> {
        Seq::new(self.channels@.len(), |a: int| self.channels@[a].contents())
    }

    /// Each arm's channel capacity.
    pub closed spec fn caps(self) -> Seq<nat> {
        Seq::new(self.channels@.len(), |a: int| self.channels@[a].cap())
    }

    /// Whether each arm's consumer is still attached.
    pub closed spec fn accepting(self) -> Seq<bool> {
        Seq::new(self.channels@.len(), |a: int| self.channels@[a].is_accepting())
    }

    pub open spec fn arm_count(self) -> nat {
        self.spec_arms().len()
    }

    pub open spec fn wf(self) -> bool {
        &&& pairwise_distinct(self.spec_arms())
        &&& self.queues().len() == self.spec_arms().len()
        &&& forall|a: int| 0 <= a < self.queues().len() ==> self.queues()[a].len()
            <= self.caps()[a]
    }

    /// Builds a demultiplexer with one channel of the given capacity per
    /// arm; accepted exactly when the declared discriminants are pairwise
    /// distinct.
    #[verifier::loop_isolation(false)]
    pub fn new(arms: Vec<Discriminant>, capacity: usize) -> (r: Result<Self, DuplicateArm>)
        ensures
            match r {
                Ok(d) => d.wf() && d.spec_arms() == arms@ && forall|a: int|
                    0 <= a < arms@.len() ==> d.queues()[a] == Seq::<TaggedEvent>::empty()
                        && d.caps()[a] == capacity && d.accepting()[a],
                Err(e) => !pairwise_distinct(arms@) && e.first < e.second < arms@.len()
                    && arms@[e.first as int] == arms@[e.second as int],
            },
    {
        let arm_set = match ArmSet::new(arms) {
            Ok(a) => a,
            Err(e) => {
                return Err(e);
            },
        };
        let n = arm_set.len();
        let mut channels: Vec<Channel<TaggedEvent>> = Vec::new();
        let mut k: usize = 0;
        while k < n
            invariant
                k <= n,
                channels@.len() == k,
                forall|a: int| 0 <= a < k ==> channels@[a].contents() == Seq::<
                    TaggedEvent,
                >::empty() && channels@[a].cap() == capacity && channels@[a].is_accepting(),
            decreases n - k,
        {
            channels.push(Channel::new(capacity));
            k = k + 1;
        }
        Ok(Self { arms: arm_set, channels })
    }

    /// Offers one event to its arm's channel: the single driver's step.
    /// Exactly one of four things happens, and in every case but delivery
    /// the state is unchanged and the event comes back.
    pub fn offer(&mut self, e: TaggedEvent) -> (r: Offer)
        requires
            old(self).wf(),
        ensures
            final(self).wf(),
            final(self).spec_arms() == old(self).spec_arms(),
            final(self).caps() == old(self).caps(),
            final(self).accepting() == old(self).accepting(),
            match r {
                Offer::Delivered { arm } => arm_for(old(self).spec_arms(), e.disc()) == Some(
                    arm as int,
                ) && old(self).accepting()[arm as int] && old(self).queues()[arm as int].len()
                    < old(self).caps()[arm as int] && final(self).queues() == old(self).queues().update(arm as int, old(self).queues()[arm as int].push(e)),
                Offer::Unmatched { event } => event == e && arm_for(
                    old(self).spec_arms(),
                    e.disc(),
                ) is None && final(self).queues() == old(self).queues(),
                Offer::ClosedArm { arm, event } => event == e && arm_for(
                    old(self).spec_arms(),
                    e.disc(),
                ) == Some(arm as int) && !old(self).accepting()[arm as int] && final(self).queues()
                    == old(self).queues(),
                Offer::Blocked { arm, event } => event == e && arm_for(
                    old(self).spec_arms(),
                    e.disc(),
                ) == Some(arm as int) && old(self).accepting()[arm as int] && old(self).queues()[arm as int].len() >= old(self).caps()[arm as int] && final(self).queues()
                    == old(self).queues(),
            },
    {
        let d = e.discriminant();
        proof {
            lemma_arm_for(self.spec_arms(), d);
        }
        match self.arms.route(d) {
            None => Offer::Unmatched { event: e },
            Some(a) => {
                proof {
                    assert(old(self).queues().len() == old(self).channels@.len());
                    assert(old(self).queues()[a as int] == old(self).channels@[a as int].contents());
                    assert(old(self).caps()[a as int] == old(self).channels@[a as int].cap());
                    assert(old(self).accepting()[a as int] == old(
                        self,
                    ).channels@[a as int].is_accepting());
                }
                let mut ch = self.channels.remove(a);
                let res = ch.try_send(e);
                self.channels.insert(a, ch);
                proof {
                    assert(self.channels@ =~= old(self).channels@.update(a as int, ch));
                }
                match res {
                    Ok(()) => {
                        proof {
                            assert(final(self).queues() =~= old(self).queues().update(
                                a as int,
                                old(self).queues()[a as int].push(e),
                            ));
                            assert(final(self).caps() =~= old(self).caps());
                            assert(final(self).accepting() =~= old(self).accepting());
                        }
                        Offer::Delivered { arm: a }
                    },
                    Err(SendError::Closed(u)) => {
                        proof {
                            assert(final(self).queues() =~= old(self).queues());
                            assert(final(self).caps() =~= old(self).caps());
                            assert(final(self).accepting() =~= old(self).accepting());
                        }
                        Offer::ClosedArm { arm: a, event: u }
                    },
                    Err(SendError::Full(u)) => {
                        proof {
                            assert(final(self).queues() =~= old(self).queues());
                            assert(final(self).caps() =~= old(self).caps());
                            assert(final(self).accepting() =~= old(self).accepting());
                        }
                        Offer::Blocked { arm: a, event: u }
                    },
                }
            },
        }
    }

    /// Takes the oldest event queued for one arm: that arm's consumer
    /// observes its sub-stream strictly in source order.
    pub fn take(&mut self, arm: usize) -> (r: Option<TaggedEvent>)
        requires
            old(self).wf(),
            arm < old(self).arm_count(),
        ensures
            final(self).wf(),
            final(self).spec_arms() == old(self).spec_arms(),
            final(self).caps() == old(self).caps(),
            final(self).accepting() == old(self).accepting(),
            match r {
                Some(t) => old(self).queues()[arm as int].len() > 0 && t == old(self).queues()[arm as int][0] && final(self).queues() == old(self).queues().update(
                    arm as int,
                    old(self).queues()[arm as int].drop_first(),
                ),
                None => old(self).queues()[arm as int].len() == 0 && final(self).queues() == old(self).queues(),
            },
    {
        let mut ch = self.channels.remove(arm);
        let r = ch.recv();
        self.channels.insert(arm, ch);
        proof {
            assert(self.channels@ =~= old(self).channels@.update(arm as int, ch));
            assert(final(self).caps() =~= old(self).caps());
            assert(final(self).accepting() =~= old(self).accepting());
            match r {
                Some(_) => {
                    assert(final(self).queues() =~= old(self).queues().update(
                        arm as int,
                        old(self).queues()[arm as int].drop_first(),
                    ));
                },
                None => {
                    assert(final(self).queues() =~= old(self).queues());
                },
            }
        }
        r
    }

    /// Detaches one arm's consumer: later matches for it go to the error
    /// policy.
    pub fn close_arm(&mut self, arm: usize)
        requires
            old(self).wf(),
            arm < old(self).arm_count(),
        ensures
            final(self).wf(),
            final(self).spec_arms() == old(self).spec_arms(),
            final(self).caps() == old(self).caps(),
            final(self).queues() == old(self).queues(),
            final(self).accepting() == old(self).accepting().update(arm as int, false),
    {
        let mut ch = self.channels.remove(arm);
        ch.close();
        self.channels.insert(arm, ch);
        proof {
            assert(self.channels@ =~= old(self).channels@.update(arm as int, ch));
            assert(final(self).caps() =~= old(self).caps());
            assert(final(self).queues() =~= old(self).queues());
            assert(final(self).accepting() =~= old(self).accepting().update(arm as int, false));
        }
    }

    /// Hands one arm's whole queue over in arrival order: what that arm's
    /// dispatched handler observes of its sub-stream.
    pub fn drain_arm(&mut self, arm: usize) -> (r: Vec<TaggedEvent>)
        requires
            old(self).wf(),
            arm < old(self).arm_count(),
        ensures
            final(self).wf(),
            final(self).spec_arms() == old(self).spec_arms(),
            final(self).caps() == old(self).caps(),
            final(self).accepting() == old(self).accepting(),
            r@ == old(self).queues()[arm as int],
            final(self).queues() == old(self).queues().update(
                arm as int,
                Seq::<TaggedEvent>::empty(),
            ),
    {
        let mut r: Vec<TaggedEvent> = Vec::new();
        proof {
            assert(old(self).queues()[arm as int].skip(0) =~= old(self).queues()[arm as int]);
            assert(old(self).queues().update(arm as int, old(self).queues()[arm as int]) =~= old(self).queues());
        }
        loop
            invariant
                old(self).wf(),
                arm < old(self).arm_count(),
                arm < self.arm_count(),
                self.wf(),
                self.spec_arms() == old(self).spec_arms(),
                self.caps() == old(self).caps(),
                self.accepting() == old(self).accepting(),
                r@.len() <= old(self).queues()[arm as int].len(),
                r@ == old(self).queues()[arm as int].take(r@.len() as int),
                self.queues() == old(self).queues().update(
                    arm as int,
                    old(self).queues()[arm as int].skip(r@.len() as int),
                ),
            ensures
                r@ == old(self).queues()[arm as int],
                self.wf(),
                self.spec_arms() == old(self).spec_arms(),
                self.caps() == old(self).caps(),
                self.accepting() == old(self).accepting(),
                self.queues() == old(self).queues().update(
                    arm as int,
                    Seq::<TaggedEvent>::empty(),
                ),
            decreases old(self).queues()[arm as int].len() - r@.len(),
        {
            let ghost k = r@.len() as int;
            let ghost q = old(self).queues()[arm as int];
            proof {
                assert(self.queues()[arm as int] == q.skip(k));
            }
            match self.take(arm) {
                Some(t) => {
                    proof {
                        assert(q.skip(k).len() > 0);
                        assert(q.skip(k)[0] == q[k]);
                        assert(q.skip(k).drop_first() =~= q.skip(k + 1));
                        assert(old(self).queues().update(arm as int, q.skip(k)).update(
                            arm as int,
                            q.skip(k + 1),
                        ) =~= old(self).queues().update(arm as int, q.skip(k + 1)));
                        assert(q.take(k).push(q[k]) =~= q.take(k + 1));
                    }
                    r.push(t);
                },
                None => {
                    proof {
                        assert(q.skip(k).len() == 0);
                        assert(r@ =~= q);
                        assert(q.skip(k) =~= Seq::<TaggedEvent>::empty());
                    }
                    break;
                },
            }
        }
        r
    }

    /// Closes every arm's channel: the end-of-sequence signal sent to all
    /// consumers once the source is exhausted. Queued events stay
    /// drainable.
    #[verifier::loop_isolation(false)]
    pub fn close_all(&mut self)
        requires
            old(self).wf(),
        ensures
            final(self).wf(),
            final(self).spec_arms() == old(self).spec_arms(),
            final(self).caps() == old(self).caps(),
            final(self).queues() == old(self).queues(),
            forall|a: int| 0 <= a < final(self).arm_count() ==> !final(self).accepting()[a],
    {
        let n = self.arms.len();
        let mut k: usize = 0;
        proof {
            assert(self.queues().len() == n);
        }
        while k < n
            invariant
                k <= n,
                self.wf(),
                self.spec_arms() == old(self).spec_arms(),
                self.caps() == old(self).caps(),
                self.queues() == old(self).queues(),
                self.accepting().len() == old(self).accepting().len(),
                forall|a: int| 0 <= a < k ==> !self.accepting()[a],
                forall|a: int| k <= a < self.accepting().len() ==> self.accepting()[a] == old(
                    self,
                ).accepting()[a],
            decreases n - k,
        {
            self.close_arm(k);
            k = k + 1;
        }
    }

    /// Whether the driver, having delivered every matched event of
    /// `events` before `j`, cannot place event `j`: its arm's channel is
    /// already full.
    pub open spec fn blocks_at(self, events: Seq<TaggedEvent>, j: int) -> bool {
        match arm_for(self.spec_arms(), events[j].disc()) {
            Some(a) => self.queues()[a].len() + filter_disc(
                events.take(j),
                self.spec_arms()[a],
            ).len() >= self.caps()[a],
            None => false,
        }
    }

    /// Whether the driver stops at event `j`: it cannot be placed, or it
    /// is unmatched under the panicking policy.
    pub open spec fn stops_at(self, events: Seq<TaggedEvent>, policy: ErrorPolicy, j: int) -> bool {
        self.blocks_at(events, j) || (policy is Panicking && arm_for(
            self.spec_arms(),
            events[j].disc(),
        ) is None)
    }

    /// Pumps a batch of source events through the channels in order, with
    /// attached consumers not advancing meanwhile. The run stops at the
    /// first event that cannot be placed — a full channel suspends the
    /// driver, an unmatched event under the panicking policy aborts it —
    /// and nothing from that event on is delivered to any arm.
    #[verifier::loop_isolation(false)]
    pub fn pump(&mut self, events: Vec<TaggedEvent>, policy: ErrorPolicy) -> (r: PumpOutcome)
        requires
            old(self).wf(),
            forall|a: int| 0 <= a < old(self).arm_count() ==> old(self).accepting()[a],
        ensures
            final(self).wf(),
            final(self).spec_arms() == old(self).spec_arms(),
            final(self).caps() == old(self).caps(),
            final(self).accepting() == old(self).accepting(),
            match r.status {
                PumpStatus::Completed => (forall|j: int|
                    0 <= j < events@.len() ==> !old(self).stops_at(events@, policy, j)) && (forall|
                    a: int,
                |
                    0 <= a < old(self).arm_count() ==> final(self).queues()[a] == old(self).queues()[a] + filter_disc(events@, old(self).spec_arms()[a])) && r.rejected@
                    == (if policy is Logging {
                    unmatched_of(events@, old(self).spec_arms())
                } else {
                    Seq::<TaggedEvent>::empty()
                }) && r.remaining@ == Seq::<TaggedEvent>::empty(),
                PumpStatus::Blocked { arm, at } => at < events@.len() && (forall|j: int|
                    0 <= j < at ==> !old(self).stops_at(events@, policy, j)) && old(self).blocks_at(
                    events@,
                    at as int,
                ) && arm_for(old(self).spec_arms(), events@[at as int].disc()) == Some(arm as int)
                    && (forall|a: int|
                    0 <= a < old(self).arm_count() ==> final(self).queues()[a] == old(self).queues()[a] + filter_disc(
                        events@.take(at as int),
                        old(self).spec_arms()[a],
                    )) && r.rejected@ == (if policy is Logging {
                    unmatched_of(events@.take(at as int), old(self).spec_arms())
                } else {
                    Seq::<TaggedEvent>::empty()
                }) && r.remaining@ == events@.skip(at as int),
                PumpStatus::Fatal { at } => policy is Panicking && at < events@.len() && (forall|
                    j: int,
                |
                    0 <= j < at ==> !old(self).stops_at(events@, policy, j)) && arm_for(
                    old(self).spec_arms(),
                    events@[at as int].disc(),
                ) is None && (forall|a: int|
                    0 <= a < old(self).arm_count() ==> final(self).queues()[a] == old(self).queues()[a] + filter_disc(
                        events@.take(at as int),
                        old(self).spec_arms()[a],
                    )) && r.rejected@ == Seq::<TaggedEvent>::empty() && r.remaining@ == Seq::<
                    TaggedEvent,
                >::empty(),
            },
    {
        let ghost src = events@;
        let ghost sarms = old(self).spec_arms();
        let ghost base = old(self).queues();
        let mut events = events;
        let n_events = events.len();
        proof {
            assert(src.len() == n_events as int);
        }
        let mut rejected: Vec<TaggedEvent> = Vec::new();
        let mut pos: usize = 0;
        let ghost mut i: int = 0;
        proof {
            assert(src.take(0) =~= Seq::<TaggedEvent>::empty());
            assert(src.skip(0) =~= src);
            assert forall|a: int| 0 <= a < old(self).arm_count() implies self.queues()[a] == base[a]
                + filter_disc(src.take(0), sarms[a]) by {
                assert(base[a] + Seq::<TaggedEvent>::empty() =~= base[a]);
            }
        }
        while events.len() > 0
            invariant
                0 <= i <= src.len(),
                pos as int == i,
                events@ == src.skip(i),
                self.wf(),
                self.spec_arms() == sarms,
                self.caps() == old(self).caps(),
                self.accepting() == old(self).accepting(),
                self.arm_count() == old(self).arm_count(),
                forall|a: int| 0 <= a < old(self).arm_count() ==> self.queues()[a] == base[a]
                    + filter_disc(src.take(i), sarms[a]),
                rejected@ == (if policy is Logging {
                    unmatched_of(src.take(i), sarms)
                } else {
                    Seq::<TaggedEvent>::empty()
                }),
                forall|j: int| 0 <= j < i ==> !old(self).stops_at(src, policy, j),
            decreases events@.len(),
        {
            let e = events.remove(0);
            proof {
                assert(src.skip(i)[0] == src[i]);
                assert(src.skip(i).remove(0) =~= src.skip(i + 1));
                lemma_arm_for(sarms, src[i].disc());
            }
            match self.offer(e) {
                Offer::Delivered { arm } => {
                    proof {
                        assert(!old(self).stops_at(src, policy, i));
                        assert forall|a: int|
                            0 <= a < old(self).arm_count() implies self.queues()[a] == base[a]
                            + filter_disc(src.take(i + 1), sarms[a]) by {
                            lemma_filter_take_step(src, sarms[a], i);
                            if a == arm as int {
                                assert((base[a] + filter_disc(src.take(i), sarms[a])).push(src[i])
                                    =~= base[a] + filter_disc(src.take(i), sarms[a]).push(src[i]));
                            }
                        }
                        lemma_unmatched_take_step(src, sarms, i);
                        i = i + 1;
                    }
                    pos = pos + 1;
                },
                Offer::Unmatched { event } => {
                    match policy {
                        ErrorPolicy::Panicking => {
                            let out = PumpOutcome {
                                status: PumpStatus::Fatal { at: pos },
                                rejected,
                                remaining: Vec::new(),
                            };
                            return out;
                        },
                        ErrorPolicy::Ignoring => {},
                        ErrorPolicy::Logging => {
                            rejected.push(event);
                        },
                    }
                    proof {
                        assert(!old(self).stops_at(src, policy, i));
                        assert forall|a: int|
                            0 <= a < old(self).arm_count() implies self.queues()[a] == base[a]
                            + filter_disc(src.take(i + 1), sarms[a]) by {
                            lemma_filter_take_step(src, sarms[a], i);
                        }
                        lemma_unmatched_take_step(src, sarms, i);
                        i = i + 1;
                    }
                    pos = pos + 1;
                },
                Offer::ClosedArm { arm, event } => {
                    proof {
                        assert(false);
                    }
                    let out = PumpOutcome {
                        status: PumpStatus::Completed,
                        rejected,
                        remaining: Vec::new(),
                    };
                    return out;
                },
                Offer::Blocked { arm, event } => {
                    events.insert(0, event);
                    proof {
                        assert(events@ =~= src.skip(i));
                        assert(old(self).blocks_at(src, i));
                    }
                    let out = PumpOutcome {
                        status: PumpStatus::Blocked { arm, at: pos },
                        rejected,
                        remaining: events,
                    };
                    return out;
                },
            }
        }
        proof {
            assert(src.take(i) =~= src);
        }
        PumpOutcome { status: PumpStatus::Completed, rejected, remaining: events }
    }
}

/// Backpressure: when one arm's consumer never advances and the batch
/// carries more events for that arm than its channel has room left for,
/// the driver cannot pump the batch to completion — some event stops it,
/// and from that event on nothing is delivered to any arm.
pub proof fn lemma_backpressure(
    d: Demux,
    events: Seq<TaggedEvent>,
    policy: ErrorPolicy,
    a: int,
)
    requires
        d.wf(),
        0 <= a < d.spec_arms().len(),
        d.queues()[a].len() + filter_disc(events, d.spec_arms()[a]).len() > d.caps()[a],
    ensures
        exists|j: int| 0 <= j < events.len() && #[trigger] d.stops_at(events, policy, j),
{
    let arms = d.spec_arms();
    let t = d.caps()[a] - d.queues()[a].len();
    lemma_filter_index_witness(events, arms[a], t);
    let w = choose|w: int|
        0 <= w < events.len() && events[w].disc() == arms[a] && filter_disc(
            events.take(w),
            arms[a],
        ).len() == t;
    lemma_arm_for(arms, arms[a]);
    match arm_for(arms, events[w].disc()) {
        Some(b) => {
            assert(arms[b] == arms[a]);
            assert(b == a);
            assert(d.blocks_at(events, w));
            assert(d.stops_at(events, policy, w));
        },
        None => {
            assert(false);
        },
    }
}

/// Inside a filter output of more than `t` events, some source event of
/// that discriminant has exactly `t` same-discriminant events before it.
pub proof fn lemma_filter_index_witness(s: Seq<TaggedEvent>, d: Discriminant, t: int)
    requires
        0 <= t < filter_disc(s, d).len(),
    ensures
        exists|w: int|
            0 <= w < s.len() && s[w].disc() == d && filter_disc(s.take(w), d).len() == t,
    decreases s.len(),
{
    let pre = s.drop_last();
    if t < filter_disc(pre, d).len() {
        lemma_filter_index_witness(pre, d, t);
        let w = choose|w: int|
            0 <= w < pre.len() && pre[w].disc() == d && filter_disc(pre.take(w), d).len() == t;
        assert(pre.take(w) =~= s.take(w));
        assert(s[w] == pre[w]);
        assert(0 <= w < s.len() && s[w].disc() == d && filter_disc(s.take(w), d).len() == t);
    } else {
        assert(s.last().disc() == d);
        let w = s.len() - 1;
        assert(s.take(w) =~= pre);
        assert(s[w] == s.last());
        assert(filter_disc(s.take(w), d).len() == t);
    }
}

} // verus!
