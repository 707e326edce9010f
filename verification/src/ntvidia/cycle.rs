//! A round of the GPU scheduler: what is due, who is observed, and how.

use super::scan::ProcScanResult;
use super::scan::UidTable;
use super::smi::GpuMetrics;
use super::state::ProcState;
use super::state::Spread;
use super::state::StartDensity;
use super::table;
use super::table::Kept;
use super::table::Table;
use crate::order;
use crate::procfs::DEFAULT_UID;
use crate::scalar::Scalar;
use crate::scalar::HALF_BITS;
use vstd::prelude::*;

verus! {

/// How many rounds pass between two questions to `nvidia-smi`.
pub const SMI_EVERY: u64 = 5;

/// How many rounds pass between two reports.
pub const REPORT_EVERY: u64 = 10;

/// How many rounds pass before what was learned is saved.
pub const SAVE_EVERY: u64 = 75;

/// How many rounds pass before old scores are removed.
pub const CLEAN_EVERY: u64 = 150;

/// How long a round takes, in milliseconds.
pub const CYCLE_MS: u64 = 800;

/// What is due in a round.
#[derive(Clone, Copy, Debug)]
pub struct Due {
    pub query: bool,
    pub report: bool,
    pub save: bool,
    pub clean: bool,
}

/// Tells what is due in a round. In the very first one nothing is saved or
/// removed yet.
pub fn due(cycle: u64) -> (r: Due)
    ensures
        r.query == (cycle % SMI_EVERY == 0),
        r.report == (cycle % REPORT_EVERY == 0),
        r.save == (cycle % SAVE_EVERY == 0 && cycle > 0),
        r.clean == (cycle % CLEAN_EVERY == 0 && cycle > 0),
        r.query == (cycle % 5 == 0),
        r.report == (cycle % 10 == 0),
        r.save == (cycle % 75 == 0 && cycle > 0),
        r.clean == (cycle % 150 == 0 && cycle > 0),
{
    Due {
        query: cycle % SMI_EVERY == 0,
        report: cycle % REPORT_EVERY == 0,
        save: cycle % SAVE_EVERY == 0 && cycle > 0,
        clean: cycle % CLEAN_EVERY == 0 && cycle > 0,
    }
}

/// How a process name shows itself: it holds the GPU open, it computes on the
/// GPU while the GPU has a load, or it does neither.
#[derive(Clone, Copy, Debug)]
pub enum Signal {
    Open,
    Compute(Scalar),
    Idle,
}

/// A process name that is to be observed.
#[derive(Debug)]
pub struct Work {
    pub comm: String,
    pub uid: u32,
    pub signal: Signal,
}

/// An observation that is to be made, by what it holds.
pub struct Turn {
    pub comm: Seq<char>,
    pub uid: u32,
    pub signal: Signal,
}

impl View for Work {
    type V = Turn;

    open spec fn view(&self) -> Turn {
        Turn { comm: self.comm@, uid: self.uid, signal: self.signal }
    }
}

pub open spec fn turns(v: Seq<Work>) -> Seq<Turn> {
    v.map_values(|w: Work| w@)
}

/// Whether a name computes on the GPU.
pub open spec fn computes(procs: Seq<(u32, String)>, name: Seq<char>) -> bool {
    exists|i: int| 0 <= i < procs.len() && (#[trigger] procs[i]).1@ == name
}

/// Who holds the GPU open has a turn as such.
pub open spec fn open_turns(users: Seq<(String, u32)>) -> Seq<Turn> {
    users.map_values(|u: (String, u32)| Turn { comm: u.0@, uid: u.1, signal: Signal::Open })
}

/// Who computes on the GPU without holding it open has a turn for each of its
/// processes.
pub open spec fn compute_turns(
    procs: Seq<(u32, String)>,
    users: Map<Seq<char>, u32>,
    share: Scalar,
) -> Seq<Turn>
    decreases procs.len(),
{
    if procs.len() == 0 {
        Seq::empty()
    } else {
        let front = compute_turns(procs.drop_last(), users, share);
        let name = procs.last().1@;
        if users.contains_key(name) {
            front
        } else {
            front.push(Turn { comm: name, uid: DEFAULT_UID, signal: Signal::Compute(share) })
        }
    }
}

/// Whoever does neither has a turn as idle.
pub open spec fn idle_turns(
    rows: Seq<ProcState>,
    users: Map<Seq<char>, u32>,
    procs: Seq<(u32, String)>,
) -> Seq<Turn>
    decreases rows.len(),
{
    if rows.len() == 0 {
        Seq::empty()
    } else {
        let front = idle_turns(rows.drop_last(), users, procs);
        let s = rows.last();
        if users.contains_key(s.comm@) || computes(procs, s.comm@) {
            front
        } else {
            front.push(Turn { comm: s.comm@, uid: s.uid, signal: Signal::Idle })
        }
    }
}

/// All the turns of a round.
pub open spec fn all_turns(
    t: Table,
    users: UidTable,
    procs: Seq<(u32, String)>,
    share: Scalar,
) -> Seq<Turn> {
    open_turns(users.rows()) + compute_turns(procs, users@, share) + idle_turns(
        t.rows(),
        users@,
        procs,
    )
}

/// The load that a computing process stands for: that of the GPU, but at least
/// one half.
pub open spec fn load_share(util: Scalar) -> Scalar {
    util.larger(Scalar { bits: HALF_BITS })
}

/// Whether a name computes on the GPU.
fn is_computing(procs: &Vec<(u32, String)>, name: &String) -> (r: bool)
    ensures
        r == computes(procs@, name@),
{
    let mut i: usize = 0;
    while i < procs.len()
        invariant
            i <= procs@.len(),
            forall|j: int| 0 <= j < i ==> (#[trigger] procs@[j]).1@ != name@,
        decreases procs.len() - i,
    {
        if procs[i].1 == *name {
            return true;
        }
        i = i + 1;
    }
    false
}

/// The turns of a round: first those who hold the GPU open, then those who
/// compute on it, then everybody else who is known.
pub fn plan(known: &Table, scan: &ProcScanResult, gpu: &GpuMetrics) -> (r: Vec<Work>)
    requires
        scan.wf(),
    ensures
        turns(r@) == all_turns(
            *known,
            scan.nvidia_users,
            gpu.compute_procs@,
            load_share(gpu.util_pct),
        ),
{
    let users = &scan.nvidia_users;
    let procs = &gpu.compute_procs;
    let share: Scalar = gpu.util_pct.max(Scalar { bits: HALF_BITS });
    let mut out: Vec<Work> = Vec::new();

    let ghost opened = open_turns(users.rows());
    let n: usize = users.len();
    let mut i: usize = 0;
    assert(turns(out@) =~= opened.take(0));
    while i < n
        invariant
            n == users.rows().len(),
            i <= n,
            users.wf(),
            opened == open_turns(users.rows()),
            turns(out@) == opened.take(i as int),
        decreases n - i,
    {
        let ghost done = turns(out@);
        let (name, uid) = users.row(i);
        let w = Work { comm: name.to_owned(), uid, signal: Signal::Open };
        out.push(w);
        assert(turns(out@) =~= done.push(w@));
        assert(opened.take(i + 1) =~= opened.take(i as int).push(opened[i as int]));
        i = i + 1;
    }
    assert(opened.take(n as int) =~= opened);

    let mut j: usize = 0;
    assert(procs@.take(0) =~= Seq::<(u32, String)>::empty());
    assert(turns(out@) =~= opened + Seq::<Turn>::empty());
    while j < procs.len()
        invariant
            j <= procs@.len(),
            users.wf(),
            turns(out@) == opened + compute_turns(procs@.take(j as int), users@, share),
        decreases procs.len() - j,
    {
        let ghost done = turns(out@);
        assert(procs@.take(j + 1).drop_last() =~= procs@.take(j as int));
        if !users.contains(procs[j].1.as_str()) {
            let w = Work {
                comm: procs[j].1.clone(),
                uid: DEFAULT_UID,
                signal: Signal::Compute(share),
            };
            out.push(w);
            assert(turns(out@) =~= done.push(w@));
            assert(done.push(w@) =~= opened + compute_turns(
                procs@.take(j as int),
                users@,
                share,
            ).push(w@));
        }
        j = j + 1;
    }
    assert(procs@.take(j as int) =~= procs@);

    let ghost busy = opened + compute_turns(procs@, users@, share);
    let ghost rows = known.rows();
    let mut k: usize = 0;
    assert(rows.take(0) =~= Seq::<ProcState>::empty());
    assert(turns(out@) =~= busy + Seq::<Turn>::empty());
    while k < known.len()
        invariant
            k <= rows.len(),
            rows == known.rows(),
            users.wf(),
            turns(out@) == busy + idle_turns(rows.take(k as int), users@, procs@),
        decreases rows.len() - k,
    {
        let ghost done = turns(out@);
        assert(rows.take(k + 1).drop_last() =~= rows.take(k as int));
        let s = known.row(k);
        let active: bool = users.contains(s.comm.as_str()) || is_computing(procs, &s.comm);
        if !active {
            let w = Work { comm: s.comm.clone(), uid: s.uid, signal: Signal::Idle };
            out.push(w);
            assert(turns(out@) =~= done.push(w@));
            assert(done.push(w@) =~= busy + idle_turns(rows.take(k as int), users@, procs@).push(
                w@,
            ));
        }
        k = k + 1;
    }
    assert(rows.take(k as int) =~= rows);
    out
}

/// Opens a turn. Who holds the GPU open or computes on it becomes known, and the
/// former takes the owner that was seen. What comes back are the share and the
/// spread so far, from which the observation is worked out.
pub fn begin(known: &mut Table, w: &Work, start: &StartDensity, now: u64) -> (r: Option<
    (Scalar, Spread),
>)
    requires
        old(known).wf(),
    ensures
        final(known).wf(),
        r is Some <==> final(known)@.contains_key(w.comm@),
        r matches Some(p) ==> p.0 == final(known)@[w.comm@].gpu_rate_ema && p.1 == final(known)@[w.comm@].sigma,
        w.signal is Idle ==> final(known)@ == old(known)@,
        !(w.signal is Idle) ==> final(known)@ == old(known)@.insert(
            w.comm@,
            final(known)@[w.comm@],
        ),
        old(known)@.contains_key(w.comm@) ==> final(known)@[w.comm@] == (if w.signal is Open {
            ProcState { uid: w.uid, ..old(known)@[w.comm@] }
        } else {
            old(known)@[w.comm@]
        }),
        !old(known)@.contains_key(w.comm@) && !(w.signal is Idle) ==> super::state::is_new(
            final(known)@[w.comm@],
            w.comm@,
            w.uid,
            *start,
            now,
        ),
{
    match w.signal {
        Signal::Open => {
            known.meet(w.comm.as_str(), w.uid, false, start, now);
        },
        Signal::Compute(_) => {
            known.meet(w.comm.as_str(), w.uid, true, start, now);
        },
        Signal::Idle => {},
    }
    match known.get(w.comm.as_str()) {
        Some(s) => Some((s.gpu_rate_ema, s.sigma)),
        None => None,
    }
}

/// What a round has to report: how many names belong on the GPU, if reporting
/// is due and there are any.
pub fn report(known: &Table, cycle: u64) -> (r: Option<usize>)
    ensures
        r == (if cycle % REPORT_EVERY == 0 && table::on_gpu(known.rows()) > 0 {
            Some(table::on_gpu(known.rows()) as usize)
        } else {
            None
        }),
        r is Some ==> cycle % 10 == 0,
        r is Some ==> r->0 == known.rows().filter(|s: ProcState| s.use_gpu).len(),
        cycle % 10 == 0 && r is None ==> known.rows().filter(|s: ProcState| s.use_gpu).len() == 0,
{
    proof {
        table::law_on_the_gpu(known.rows());
    }
    if cycle % REPORT_EVERY == 0 {
        let n: usize = known.gpu_count();
        if n > 0 {
            Some(n)
        } else {
            None
        }
    } else {
        None
    }
}

/// What is left to do at the start of a round if the flag for a shutdown is up:
/// to save what is worth keeping. If it is down, the round goes on.
pub fn shutdown_requested(flag_up: bool, known: &Table) -> (r: Option<Vec<Kept>>)
    ensures
        r is Some <==> flag_up,
        r matches Some(v) ==> exists|by: Seq<usize>| #[trigger]
            order::is_order(table::kept_keys(table::kept_of(known.rows())), by)
                && table::kept_fields(v@) == table::arranged(table::kept_of(known.rows()), by),
{
    if flag_up {
        Some(known.save_learned())
    } else {
        None
    }
}

// ---------------------------------------------------------------------------
// Everybody has a turn
// ---------------------------------------------------------------------------

proof fn lemma_compute_turns(procs: Seq<(u32, String)>, users: Map<Seq<char>, u32>, share: Scalar)
    ensures
        forall|i: int|
            0 <= i < compute_turns(procs, users, share).len() ==> {
                let t = #[trigger] compute_turns(procs, users, share)[i];
                &&& t.signal == Signal::Compute(share)
                &&& !users.contains_key(t.comm)
                &&& computes(procs, t.comm)
            },
        forall|c: Seq<char>|
            computes(procs, c) && !users.contains_key(c) ==> exists|i: int|
                0 <= i < compute_turns(procs, users, share).len() && (#[trigger] compute_turns(
                    procs,
                    users,
                    share,
                )[i]).comm == c,
    decreases procs.len(),
{
    if procs.len() > 0 {
        let less = procs.drop_last();
        lemma_compute_turns(less, users, share);
        let all = compute_turns(procs, users, share);
        let front = compute_turns(less, users, share);
        assert forall|i: int| 0 <= i < all.len() implies {
            let t = #[trigger] all[i];
            &&& t.signal == Signal::Compute(share)
            &&& !users.contains_key(t.comm)
            &&& computes(procs, t.comm)
        } by {
            if i < front.len() {
                assert(all[i] == front[i]);
                let j = choose|j: int|
                    0 <= j < less.len() && (#[trigger] less[j]).1@ == front[i].comm;
                assert(procs[j].1@ == front[i].comm);
            } else {
                assert(procs[procs.len() - 1].1@ == all[i].comm);
            }
        }
        assert forall|c: Seq<char>| computes(procs, c) && !users.contains_key(c) implies exists|
            i: int,
        |
            0 <= i < all.len() && (#[trigger] all[i]).comm == c by {
            let j = choose|j: int| 0 <= j < procs.len() && (#[trigger] procs[j]).1@ == c;
            if j < less.len() {
                assert(less[j].1@ == c);
                assert(computes(less, c));
                let i = choose|i: int| 0 <= i < front.len() && (#[trigger] front[i]).comm == c;
                assert(all[i].comm == c);
            } else {
                assert(all[all.len() - 1].comm == c);
            }
        }
    }
}

proof fn lemma_idle_turns(
    rows: Seq<ProcState>,
    users: Map<Seq<char>, u32>,
    procs: Seq<(u32, String)>,
)
    ensures
        forall|i: int|
            0 <= i < idle_turns(rows, users, procs).len() ==> {
                let t = #[trigger] idle_turns(rows, users, procs)[i];
                &&& t.signal == Signal::Idle
                &&& !users.contains_key(t.comm)
                &&& !computes(procs, t.comm)
                &&& table::names(rows).contains(t.comm)
            },
        forall|j: int|
            0 <= j < rows.len() && !users.contains_key((#[trigger] rows[j]).comm@) && !computes(
                procs,
                rows[j].comm@,
            ) ==> exists|i: int|
                0 <= i < idle_turns(rows, users, procs).len() && (#[trigger] idle_turns(
                    rows,
                    users,
                    procs,
                )[i]).comm == rows[j].comm@,
        table::names(rows).no_duplicates() ==> forall|i: int, j: int|
            0 <= i < j < idle_turns(rows, users, procs).len() ==> #[trigger] idle_turns(
                rows,
                users,
                procs,
            )[i].comm != #[trigger] idle_turns(rows, users, procs)[j].comm,
    decreases rows.len(),
{
    if rows.len() > 0 {
        let less = rows.drop_last();
        lemma_idle_turns(less, users, procs);
        let all = idle_turns(rows, users, procs);
        let front = idle_turns(less, users, procs);
        let last = rows.len() - 1;
        let (a, b) = (table::names(less), table::names(rows));
        assert(a =~= b.drop_last());
        assert forall|i: int| 0 <= i < all.len() implies {
            let t = #[trigger] all[i];
            &&& t.signal == Signal::Idle
            &&& !users.contains_key(t.comm)
            &&& !computes(procs, t.comm)
            &&& b.contains(t.comm)
        } by {
            if i < front.len() {
                assert(all[i] == front[i]);
                let j = choose|j: int| 0 <= j < a.len() && a[j] == front[i].comm;
                assert(b[j] == front[i].comm);
            } else {
                assert(b[last] == all[i].comm);
            }
        }
        assert forall|j: int|
            0 <= j < rows.len() && !users.contains_key((#[trigger] rows[j]).comm@) && !computes(
                procs,
                rows[j].comm@,
            ) implies exists|i: int| 0 <= i < all.len() && (#[trigger] all[i]).comm
            == rows[j].comm@ by {
            if j < last {
                assert(less[j] == rows[j]);
                let i = choose|i: int|
                    0 <= i < front.len() && (#[trigger] front[i]).comm == less[j].comm@;
                assert(all[i].comm == rows[j].comm@);
            } else {
                assert(all[all.len() - 1].comm == rows[j].comm@);
            }
        }
        if b.no_duplicates() {
            assert forall|i: int, j: int| 0 <= i < j < all.len() implies #[trigger] all[i].comm
                != #[trigger] all[j].comm by {
                if j < front.len() {
                    assert(front[i].comm != front[j].comm);
                } else {
                    assert(all[i] == front[i]);
                    let k = choose|k: int| 0 <= k < a.len() && a[k] == front[i].comm;
                    assert(b[k] != b[last]);
                }
            }
        }
    }
}

/// How a turn of a name comes about.
pub open spec fn fits(
    t: Turn,
    users: Map<Seq<char>, u32>,
    procs: Seq<(u32, String)>,
    share: Scalar,
) -> bool {
    if users.contains_key(t.comm) {
        t.signal == Signal::Open && t.uid == users[t.comm]
    } else if computes(procs, t.comm) {
        t.signal == Signal::Compute(share)
    } else {
        t.signal == Signal::Idle
    }
}

/// In every round each name that is known, and each that shows itself on the
/// GPU, has a turn.
pub proof fn law_everybody_has_a_turn(
    t: Table,
    users: UidTable,
    procs: Seq<(u32, String)>,
    share: Scalar,
    c: Seq<char>,
)
    requires
        t.wf(),
        users.wf(),
        t@.contains_key(c) || users@.contains_key(c) || computes(procs, c),
    ensures
        exists|i: int|
            0 <= i < all_turns(t, users, procs, share).len() && (#[trigger] all_turns(
                t,
                users,
                procs,
                share,
            )[i]).comm == c,
{
    let a = open_turns(users.rows());
    let b = compute_turns(procs, users@, share);
    let d = idle_turns(t.rows(), users@, procs);
    let all = all_turns(t, users, procs, share);
    lemma_compute_turns(procs, users@, share);
    lemma_idle_turns(t.rows(), users@, procs);
    if users@.contains_key(c) {
        let names = super::scan::row_names(users.rows());
        let i = choose|i: int| 0 <= i < names.len() && names[i] == c;
        assert(a[i].comm == c);
        assert(all[i] == a[i]);
    } else if computes(procs, c) {
        let i = choose|i: int| 0 <= i < b.len() && (#[trigger] b[i]).comm == c;
        assert(all[a.len() + i] == b[i]);
    } else {
        let j = t.lemma_entry(c);
        let i = choose|i: int| 0 <= i < d.len() && (#[trigger] d[i]).comm == t.rows()[j].comm@;
        assert(all[a.len() + b.len() + i] == d[i]);
    }
}

/// A name is observed as what it shows itself: holding the GPU open comes before
/// computing on it, and only who does neither is taken to be idle.
pub proof fn law_turns_fit(
    t: Table,
    users: UidTable,
    procs: Seq<(u32, String)>,
    share: Scalar,
    i: int,
)
    requires
        users.wf(),
        0 <= i < all_turns(t, users, procs, share).len(),
    ensures
        fits(all_turns(t, users, procs, share)[i], users@, procs, share),
{
    let a = open_turns(users.rows());
    let b = compute_turns(procs, users@, share);
    let d = idle_turns(t.rows(), users@, procs);
    let all = all_turns(t, users, procs, share);
    lemma_compute_turns(procs, users@, share);
    lemma_idle_turns(t.rows(), users@, procs);
    if i < a.len() {
        assert(all[i] == a[i]);
        users.lemma_row(i);
    } else if i < a.len() + b.len() {
        assert(all[i] == b[i - a.len()]);
    } else {
        assert(all[i] == d[i - a.len() - b.len()]);
    }
}

/// Two turns of one name in one round are turns of two of its processes that
/// compute on the GPU.
pub proof fn law_turns_repeat_for_compute_only(
    t: Table,
    users: UidTable,
    procs: Seq<(u32, String)>,
    share: Scalar,
    i: int,
    j: int,
)
    requires
        t.wf(),
        users.wf(),
        0 <= i < j < all_turns(t, users, procs, share).len(),
        all_turns(t, users, procs, share)[i].comm == all_turns(t, users, procs, share)[j].comm,
    ensures
        all_turns(t, users, procs, share)[i].signal == Signal::Compute(share),
        all_turns(t, users, procs, share)[j].signal == Signal::Compute(share),
{
    let a = open_turns(users.rows());
    let b = compute_turns(procs, users@, share);
    let d = idle_turns(t.rows(), users@, procs);
    let all = all_turns(t, users, procs, share);
    let names = super::scan::row_names(users.rows());
    law_turns_fit(t, users, procs, share, i);
    law_turns_fit(t, users, procs, share, j);
    lemma_compute_turns(procs, users@, share);
    lemma_idle_turns(t.rows(), users@, procs);
    let ab = (a.len() + b.len()) as int;
    if all[i].signal == Signal::Open {
        // Both stand among the first turns, where the names differ.
        assert(i < a.len()) by {
            if a.len() <= i && i < ab {
                assert(all[i] == b[i - a.len()]);
            } else if ab <= i {
                assert(all[i] == d[i - ab]);
            }
        }
        assert(j < a.len()) by {
            if a.len() <= j && j < ab {
                assert(all[j] == b[j - a.len()]);
            } else if ab <= j {
                assert(all[j] == d[j - ab]);
            }
        }
        assert(all[i] == a[i] && all[j] == a[j]);
        assert(names[i] == a[i].comm && names[j] == a[j].comm);
        assert(false);
    } else if all[i].signal == Signal::Idle {
        // Both stand among the last turns, where the names differ.
        assert(ab <= i) by {
            if i < a.len() {
                assert(all[i] == a[i]);
            } else if i < ab {
                assert(all[i] == b[i - a.len()]);
            }
        }
        assert(all[i] == d[i - ab] && all[j] == d[j - ab]);
        assert(false);
    }
}

/// The turns of a round. First those who hold the GPU open, in their order, each
/// with the owner that was seen. Then those who compute on it and do not hold it
/// open, one turn for each process, taken for processes of the owner 1000. Last
/// those known who do neither.
pub proof fn law_plan(t: Table, users: UidTable, procs: Seq<(u32, String)>, share: Scalar)
    ensures
        all_turns(t, users, procs, share) == users.rows().map_values(
            |u: (String, u32)| Turn { comm: u.0@, uid: u.1, signal: Signal::Open },
        ) + procs.filter(|p: (u32, String)| !users@.contains_key(p.1@)).map_values(
            |p: (u32, String)|
                Turn { comm: p.1@, uid: 1000, signal: Signal::Compute(share) },
        ) + t.rows().filter(
            |s: ProcState|
                !users@.contains_key(s.comm@) && !(exists|i: int|
                    0 <= i < procs.len() && (#[trigger] procs[i]).1@ == s.comm@),
        ).map_values(
            |s: ProcState| Turn { comm: s.comm@, uid: s.uid, signal: Signal::Idle },
        ),
{
    lemma_compute_turns_are(procs, users@, share);
    lemma_idle_turns_are(t.rows(), users@, procs);
    assert(open_turns(users.rows()) =~= users.rows().map_values(
        |u: (String, u32)| Turn { comm: u.0@, uid: u.1, signal: Signal::Open },
    ));
}

proof fn lemma_compute_turns_are(
    procs: Seq<(u32, String)>,
    users: Map<Seq<char>, u32>,
    share: Scalar,
)
    ensures
        compute_turns(procs, users, share) == procs.filter(
            |p: (u32, String)| !users.contains_key(p.1@),
        ).map_values(
            |p: (u32, String)|
                Turn { comm: p.1@, uid: 1000, signal: Signal::Compute(share) },
        ),
    decreases procs.len(),
{
    reveal(Seq::filter);
    let p = |p: (u32, String)| !users.contains_key(p.1@);
    let f = |p: (u32, String)| Turn { comm: p.1@, uid: 1000, signal: Signal::Compute(share) };
    if procs.len() > 0 {
        lemma_compute_turns_are(procs.drop_last(), users, share);
    }
    assert(compute_turns(procs, users, share) =~= procs.filter(p).map_values(f));
}

proof fn lemma_idle_turns_are(
    rows: Seq<ProcState>,
    users: Map<Seq<char>, u32>,
    procs: Seq<(u32, String)>,
)
    ensures
        idle_turns(rows, users, procs) == rows.filter(
            |s: ProcState|
                !users.contains_key(s.comm@) && !(exists|i: int|
                    0 <= i < procs.len() && (#[trigger] procs[i]).1@ == s.comm@),
        ).map_values(
            |s: ProcState| Turn { comm: s.comm@, uid: s.uid, signal: Signal::Idle },
        ),
    decreases rows.len(),
{
    reveal(Seq::filter);
    let p = |s: ProcState|
        !users.contains_key(s.comm@) && !(exists|i: int|
            0 <= i < procs.len() && (#[trigger] procs[i]).1@ == s.comm@);
    let f = |s: ProcState| Turn { comm: s.comm@, uid: s.uid, signal: Signal::Idle };
    if rows.len() > 0 {
        lemma_idle_turns_are(rows.drop_last(), users, procs);
    }
    assert(idle_turns(rows, users, procs) =~= rows.filter(p).map_values(f));
}

/// A computing process stands for the load of the GPU, but for no less than one
/// half.
pub proof fn law_load_share(util: Scalar)
    ensures
        util.nan() || util.below(Scalar { bits: 0x3FE0_0000_0000_0000 }) ==> load_share(util).bits
            == 0x3FE0_0000_0000_0000,
        !util.nan() && !util.below(Scalar { bits: 0x3FE0_0000_0000_0000 }) ==> load_share(util)
            == util,
{
}

} // verus!
