//! The account of the nice values that the CPU scheduler has set: at every
//! moment it knows of each value other than 0, so that it can take all of them
//! back.

use super::model;
use super::scan::Pid;
use super::scan::ProcEntry;
use super::sched;
use super::sched::Learned;
use super::sched::Metric;
use super::sched::ProcState;
use crate::scalar::Scalar;
use vstd::prelude::*;

verus! {

/// The nice value that was last set for each process, if one ever was, agrees
/// with what the scheduler knows: a process that is known has the value that is
/// noted, and one that is not known has none or 0.
pub open spec fn accounted(known: Map<Pid, ProcState>, set: Map<Pid, i32>) -> bool {
    &&& forall|p: Pid| #[trigger]
        known.contains_key(p) ==> (if set.contains_key(p) {
            set[p] == known[p].current_nice
        } else {
            known[p].current_nice == 0
        })
    &&& forall|p: Pid| #[trigger] set.contains_key(p) && !known.contains_key(p) ==> set[p] == 0
}

/// The values once some more were set.
pub open spec fn after_changes(set: Map<Pid, i32>, changes: Seq<(Pid, i32)>) -> Map<Pid, i32>
    decreases changes.len(),
{
    if changes.len() == 0 {
        set
    } else {
        after_changes(set, changes.drop_last()).insert(changes.last().0, changes.last().1)
    }
}

/// The values once some processes got the value 0.
pub open spec fn after_reset(set: Map<Pid, i32>, pids: Set<Pid>) -> Map<Pid, i32> {
    Map::new(
        |p: Pid| set.contains_key(p) || pids.contains(p),
        |p: Pid|
            if pids.contains(p) {
                0
            } else {
                set[p]
            },
    )
}

/// Before the scheduler knows or does anything, the account is right.
pub proof fn law_account_starts_right()
    ensures
        accounted(Map::empty(), Map::empty()),
{
}

/// Meeting the processes of a scan keeps the account right.
pub proof fn law_enrolling_keeps_the_account(
    known: Map<Pid, ProcState>,
    set: Map<Pid, i32>,
    entries: Seq<ProcEntry>,
    my_pid: Pid,
    learned: Learned,
    now: u64,
)
    requires
        accounted(known, set),
    ensures
        accounted(sched::enrolled(known, entries, my_pid, learned, now), set),
    decreases entries.len(),
{
    if entries.len() > 0 {
        law_enrolling_keeps_the_account(known, set, entries.drop_last(), my_pid, learned, now);
    }
}

/// A look at a process keeps the account right.
pub proof fn law_looking_keeps_the_account(
    known: Map<Pid, ProcState>,
    set: Map<Pid, i32>,
    pid: Pid,
    s: ProcState,
)
    requires
        accounted(known, set),
        known.contains_key(pid),
        s.current_nice == known[pid].current_nice,
    ensures
        accounted(known.insert(pid, s), set),
{
}

/// A round in which every value that has to be set is set keeps the account
/// right, and sets no value outside `-5 ..= 19`.
pub proof fn law_assigning_keeps_the_account(
    known: Map<Pid, ProcState>,
    set: Map<Pid, i32>,
    metrics: Seq<Metric>,
    norms: Seq<Scalar>,
)
    requires
        accounted(known, set),
        norms.len() == metrics.len(),
    ensures
        accounted(
            sched::assigned(known, metrics, norms),
            after_changes(set, sched::changes_of(known, metrics, norms)),
        ),
        sched::assigned(known, metrics, norms).dom() == known.dom(),
        forall|i: int|
            0 <= i < sched::changes_of(known, metrics, norms).len() ==> -5 <= (
            #[trigger] sched::changes_of(known, metrics, norms)[i]).1 <= 19,
    decreases metrics.len(),
{
    if metrics.len() > 0 {
        let (m, d) = (metrics.drop_last(), norms.drop_last());
        law_assigning_keeps_the_account(known, set, m, d);
        let so_far = sched::assigned(known, m, d);
        let front = sched::changes_of(known, m, d);
        let pid = metrics.last().pid;
        let nice = model::nice_of(norms.last());
        model::law_nice_range(norms.last());
        let all = sched::changes_of(known, metrics, norms);
        let next = sched::assigned(known, metrics, norms);
        sched::law_settling_touches_one(so_far, pid, norms.last(), pid);
        match sched::change_of(so_far, pid, nice) {
            Some(n) => {
                assert(all.drop_last() =~= front);
                assert(all.last() == (pid, n));
                let was = after_changes(set, front);
                assert forall|p: Pid| #[trigger] next.contains_key(p) implies (if was.insert(
                    pid,
                    n,
                ).contains_key(p) {
                    was.insert(pid, n)[p] == next[p].current_nice
                } else {
                    next[p].current_nice == 0
                }) by {
                    assert(so_far.contains_key(p));
                }
                assert forall|i: int| 0 <= i < all.len() implies -5 <= (#[trigger] all[i]).1
                    <= 19 by {
                    if i < front.len() {
                        assert(all[i] == front[i]);
                    }
                }
            },
            None => {
                assert forall|p: Pid| #[trigger] next.contains_key(p) implies so_far.contains_key(p)
                    && next[p].current_nice == so_far[p].current_nice by {}
            },
        }
    }
}

/// Forgetting the processes that ended keeps the account right, if they get the
/// value 0 back.
pub proof fn law_sweeping_keeps_the_account(
    known: Map<Pid, ProcState>,
    set: Map<Pid, i32>,
    alive: Set<Pid>,
)
    requires
        accounted(known, set),
    ensures
        accounted(known.restrict(alive), after_reset(set, known.dom().difference(alive))),
{
    let now = known.restrict(alive);
    let reset = after_reset(set, known.dom().difference(alive));
    assert forall|p: Pid| #[trigger] now.contains_key(p) implies (if reset.contains_key(p) {
        reset[p] == now[p].current_nice
    } else {
        now[p].current_nice == 0
    }) by {
        assert(known.contains_key(p));
    }
    assert forall|p: Pid| #[trigger] reset.contains_key(p) && !now.contains_key(p) implies reset[p]
        == 0 by {
        if !known.dom().difference(alive).contains(p) {
            assert(set.contains_key(p));
        }
    }
}

/// A shutdown leaves nothing behind: once every process that is known has the
/// value 0 back, no value other than 0 is left of all that were ever set.
pub proof fn law_shutdown_leaves_nothing_behind(known: Map<Pid, ProcState>, set: Map<Pid, i32>)
    requires
        accounted(known, set),
    ensures
        forall|p: Pid| #[trigger]
            after_reset(set, known.dom()).contains_key(p) ==> after_reset(set, known.dom())[p] == 0,
{
    assert forall|p: Pid| #[trigger] after_reset(set, known.dom()).contains_key(p) implies after_reset(
        set,
        known.dom(),
    )[p] == 0 by {
        if !known.dom().contains(p) {
            assert(set.contains_key(p));
        }
    }
}

} // verus!
