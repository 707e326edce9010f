//! The account of the scores that the GPU scheduler has written: what it wrote
//! last for a process name, as long as that lies there, tells whether the name
//! belongs on the GPU.
//!
//! The account goes by process names. Where a score lies goes by file names:
//! two names can share a file, and the old files are found by the names of the
//! files.

use super::state;
use super::state::ProcState;
use super::state::StartDensity;
use super::state::Step;
use super::table;
use crate::scalar::Scalar;
use crate::score;
use vstd::prelude::*;

verus! {

/// What was written last for each name, if anything was and it lies there, agrees
/// with what is known: a name without a score does not belong on the GPU.
pub open spec fn told(
    known: Map<Seq<char>, ProcState>,
    scores: Map<Seq<char>, bool>,
) -> bool {
    &&& forall|c: Seq<char>| #[trigger]
        known.contains_key(c) ==> (if scores.contains_key(c) {
            scores[c] == known[c].use_gpu
        } else {
            !known[c].use_gpu
        })
    &&& forall|c: Seq<char>| #[trigger] scores.contains_key(c) ==> known.contains_key(c)
}

/// The scores of all that is known.
pub open spec fn all_scores(known: Map<Seq<char>, ProcState>) -> Map<Seq<char>, bool> {
    Map::new(|c: Seq<char>| known.contains_key(c), |c: Seq<char>| known[c].use_gpu)
}

/// When the scheduler starts and writes the scores of all that it took over, the
/// account is right.
pub proof fn law_account_starts_right(known: Map<Seq<char>, ProcState>)
    ensures
        told(known, all_scores(known)),
{
}

/// Meeting new names keeps the account right, if their scores are written.
pub proof fn law_enrolling_keeps_the_account(
    was: Map<Seq<char>, ProcState>,
    now: Map<Seq<char>, ProcState>,
    seen: Map<Seq<char>, u32>,
    start: StartDensity,
    ts: u64,
    scores: Map<Seq<char>, bool>,
)
    requires
        told(was, scores),
        table::enrolled(was, now, seen, start, ts),
    ensures
        told(
            now,
            scores.union_prefer_right(
                Map::new(
                    |c: Seq<char>| seen.contains_key(c) && !was.contains_key(c),
                    |c: Seq<char>| false,
                ),
            ),
        ),
{
    let added = Map::new(
        |c: Seq<char>| seen.contains_key(c) && !was.contains_key(c),
        |c: Seq<char>| false,
    );
    let after = scores.union_prefer_right(added);
    assert forall|c: Seq<char>| #[trigger] now.contains_key(c) implies (if after.contains_key(c) {
        after[c] == now[c].use_gpu
    } else {
        !now[c].use_gpu
    }) by {
        if was.contains_key(c) {
            assert(!added.contains_key(c));
            assert(now[c] == was[c]);
        } else {
            assert(seen.contains_key(c));
            assert(added.contains_key(c));
        }
    }
}

/// Opening a turn keeps the account right without a score: whoever becomes known
/// then does not belong on the GPU.
pub proof fn law_beginning_keeps_the_account(
    was: Map<Seq<char>, ProcState>,
    now: Map<Seq<char>, ProcState>,
    scores: Map<Seq<char>, bool>,
    name: Seq<char>,
    uid: u32,
    start: StartDensity,
    ts: u64,
)
    requires
        told(was, scores),
        now == was.insert(name, now[name]),
        was.contains_key(name) ==> now[name].use_gpu == was[name].use_gpu,
        !was.contains_key(name) ==> state::is_new(now[name], name, uid, start, ts),
    ensures
        told(now, scores),
{
    assert forall|c: Seq<char>| #[trigger] now.contains_key(c) implies (if scores.contains_key(c) {
        scores[c] == now[c].use_gpu
    } else {
        !now[c].use_gpu
    }) by {
        if c != name || was.contains_key(name) {
            assert(was.contains_key(c));
        }
    }
}

/// An observation keeps the account right, if the score is written whenever it
/// moved the name on or off the GPU.
pub proof fn law_observing_keeps_the_account(
    known: Map<Seq<char>, ProcState>,
    scores: Map<Seq<char>, bool>,
    name: Seq<char>,
    step: Step,
    ts: u64,
)
    requires
        told(known, scores),
        known.contains_key(name),
    ensures
        ({
            let s = state::updated(known[name], step, ts);
            told(
                known.insert(name, s),
                if s.use_gpu != known[name].use_gpu {
                    scores.insert(name, s.use_gpu)
                } else {
                    scores
                },
            )
        }),
{
    let s = state::updated(known[name], step, ts);
    let now = known.insert(name, s);
    let after = if s.use_gpu != known[name].use_gpu {
        scores.insert(name, s.use_gpu)
    } else {
        scores
    };
    assert forall|c: Seq<char>| #[trigger] now.contains_key(c) implies (if after.contains_key(c) {
        after[c] == now[c].use_gpu
    } else {
        !now[c].use_gpu
    }) by {
        assert(known.contains_key(c));
    }
}

/// The scores that are left once the files that are out of date were removed.
pub open spec fn after_cleaning(
    known: Map<Seq<char>, ProcState>,
    scores: Map<Seq<char>, bool>,
    now: u64,
) -> Map<Seq<char>, bool> {
    Map::new(
        |c: Seq<char>|
            scores.contains_key(c) && !table::is_stale(known, score::sanitized(c), now),
        |c: Seq<char>| scores[c],
    )
}

/// Removing old files keeps the account right, if each name on the GPU is its own
/// file name and changed of late or has a share to speak of.
pub proof fn law_cleaning_keeps_the_account(
    known: Map<Seq<char>, ProcState>,
    scores: Map<Seq<char>, bool>,
    now: u64,
)
    requires
        told(known, scores),
        forall|c: Seq<char>| #[trigger]
            known.contains_key(c) && known[c].use_gpu ==> {
                &&& score::sanitized(c) == c
                &&& now <= known[c].last_updated_ts + table::SCORE_MAX_AGE_S
                    || !known[c].gpu_rate_ema.below(Scalar { bits: table::KEEP_BITS })
            },
    ensures
        told(known, after_cleaning(known, scores, now)),
{
    let left = after_cleaning(known, scores, now);
    assert forall|c: Seq<char>| #[trigger] known.contains_key(c) implies (if left.contains_key(c) {
        left[c] == known[c].use_gpu
    } else {
        !known[c].use_gpu
    }) by {
        if scores.contains_key(c) && !left.contains_key(c) {
            assert(table::is_stale(known, score::sanitized(c), now));
        }
    }
}

} // verus!
