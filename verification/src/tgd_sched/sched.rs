//! What the CPU scheduler knows of the processes, and what it does to them.

use super::model;
use super::scan::Pid;
use super::scan::ProcEntry;
use crate::order;
use crate::scalar::Scalar;
use crate::scalar::ONE_BITS;
use std::collections::HashMap;
use vstd::hash_map::StringHashMap;
use vstd::prelude::*;

verus! {

broadcast use vstd::std_specs::hash::group_hash_axioms;

/// How long a round takes, in milliseconds.
pub const CYCLE_MS: u64 = 800;

/// The same in nanoseconds.
pub const CYCLE_NS: u64 = 800_000_000;

/// The shortest time between two looks at a process that counts, in
/// nanoseconds.
pub const MIN_ELAPSED_NS: u64 = 100_000_000;

/// How many rounds pass between two reports.
pub const STATUS_EVERY: u64 = 10;

/// How many rounds pass before what was learned is saved.
pub const SAVE_EVERY: u64 = 75;

/// How many rounds pass before ended processes are forgotten.
pub const CLEAN_EVERY: u64 = 150;

/// The pattern of 0.001: a smaller share is not worth keeping.
pub const KEEP_BITS: u64 = 0x3F50_624D_D2F1_A9FC;

/// What is due in a round.
#[derive(Clone, Copy, Debug)]
pub struct Due {
    pub status: bool,
    pub save: bool,
    pub clean: bool,
}

/// Tells what is due in a round. In the very first one nothing is saved or
/// forgotten yet.
pub fn due(cycle: u64) -> (r: Due)
    ensures
        r.status == (cycle % STATUS_EVERY == 0),
        r.save == (cycle % SAVE_EVERY == 0 && cycle > 0),
        r.clean == (cycle % CLEAN_EVERY == 0 && cycle > 0),
        r.status == (cycle % 10 == 0),
        r.save == (cycle % 75 == 0 && cycle > 0),
        r.clean == (cycle % 150 == 0 && cycle > 0),
{
    Due {
        status: cycle % STATUS_EVERY == 0,
        save: cycle % SAVE_EVERY == 0 && cycle > 0,
        clean: cycle % CLEAN_EVERY == 0 && cycle > 0,
    }
}

/// What sets a timer that goes off every `ms` milliseconds: the seconds and
/// nanoseconds of the period, then those until it goes off first.
pub fn timer_spec(ms: u64) -> (r: [i64; 4])
    requires
        ms * 1_000_000 <= u64::MAX,
    ensures
        r@ == seq![0i64, (ms * 1_000_000) as i64, 0i64, (ms * 1_000_000) as i64],
{
    let ns: i64 = (ms * 1_000_000) as i64;
    let r: [i64; 4] = [0, ns, 0, ns];
    assert(r@ =~= seq![0i64, ns, 0i64, ns]);
    r
}

// ---------------------------------------------------------------------------
// What was learned before
// ---------------------------------------------------------------------------

/// A row of the file of an earlier run: a name and its share, if that is a
/// number.
#[derive(Debug)]
pub struct Record {
    pub comm: String,
    pub cpu: Option<Scalar>,
}

/// Whether a share is worth keeping.
pub open spec fn worth_keeping(cpu: Scalar) -> bool {
    (Scalar { bits: KEEP_BITS }).below(cpu)
}

impl Record {
    /// Whether the record is taken over.
    pub open spec fn counts(self) -> bool {
        self.cpu is Some && worth_keeping(self.cpu->0)
    }
}

/// The shares in some records. Of several records of a name the last counts.
pub open spec fn shares_in(recs: Seq<Record>) -> Map<Seq<char>, Scalar>
    decreases recs.len(),
{
    if recs.len() == 0 {
        Map::empty()
    } else {
        let front = shares_in(recs.drop_last());
        if recs.last().counts() {
            front.insert(recs.last().comm@, recs.last().cpu->0)
        } else {
            front
        }
    }
}

/// How many records are taken over.
pub open spec fn counting(recs: Seq<Record>) -> nat
    decreases recs.len(),
{
    if recs.len() == 0 {
        0
    } else {
        counting(recs.drop_last()) + if recs.last().counts() {
            1nat
        } else {
            0
        }
    }
}

/// The first records hold no more that count than all of them do.
proof fn lemma_counting(recs: Seq<Record>, n: int)
    requires
        0 <= n <= recs.len(),
    ensures
        counting(recs.take(n)) <= counting(recs),
    decreases recs.len() - n,
{
    if n < recs.len() {
        assert(recs.take(n + 1).drop_last() =~= recs.take(n));
        lemma_counting(recs, n + 1);
    } else {
        assert(recs.take(n) =~= recs);
    }
}

/// Whether the records that are taken over can be counted in a `u32`.
pub fn is_countable(recs: &Vec<Record>) -> (r: bool)
    ensures
        r == (counting(recs@) <= u32::MAX),
{
    let mut n: usize = 0;
    let mut i: usize = 0;
    assert(recs@.take(0) =~= Seq::<Record>::empty());
    while i < recs.len()
        invariant
            i <= recs@.len(),
            n == counting(recs@.take(i as int)),
            n <= i,
        decreases recs.len() - i,
    {
        assert(recs@.take(i + 1).drop_last() =~= recs@.take(i as int));
        match recs[i].cpu {
            Some(share) => {
                let keep: Scalar = Scalar { bits: KEEP_BITS };
                if keep.lt(share) {
                    n = n + 1;
                }
            },
            None => {},
        }
        i = i + 1;
    }
    assert(recs@.take(i as int) =~= recs@);
    n <= u32::MAX as usize
}

/// The CPU shares that were learned in earlier runs.
pub struct Learned {
    shares: StringHashMap<Scalar>,
}

impl Learned {
    /// The share of each name.
    pub closed spec fn view(self) -> Map<Seq<char>, Scalar> {
        self.shares@
    }

    /// The share of a name; zero, if none was learned.
    pub open spec fn of(self, comm: Seq<char>) -> Scalar {
        if self@.contains_key(comm) {
            self@[comm]
        } else {
            Scalar { bits: 0 }
        }
    }

    /// The share of a name; zero, if none was learned.
    pub fn share(&self, comm: &str) -> (r: Scalar)
        ensures
            r == self.of(comm@),
    {
        match self.shares.get(comm) {
            Some(x) => *x,
            None => Scalar { bits: 0 },
        }
    }
}

/// Takes over the records of an earlier run, and tells how many counted.
pub fn load_learned(recs: &Vec<Record>) -> (r: (Learned, u32))
    requires
        counting(recs@) <= u32::MAX,
    ensures
        r.0@ == shares_in(recs@),
        r.1 == counting(recs@),
{
    let mut shares: StringHashMap<Scalar> = StringHashMap::new();
    let mut n: u32 = 0;
    let mut i: usize = 0;
    assert(recs@.take(0) =~= Seq::<Record>::empty());
    while i < recs.len()
        invariant
            i <= recs@.len(),
            counting(recs@) <= u32::MAX,
            shares@ == shares_in(recs@.take(i as int)),
            n == counting(recs@.take(i as int)),
        decreases recs.len() - i,
    {
        assert(recs@.take(i + 1).drop_last() =~= recs@.take(i as int));
        match recs[i].cpu {
            Some(cpu) => {
                let keep: Scalar = Scalar { bits: KEEP_BITS };
                if keep.lt(cpu) {
                    shares.insert(recs[i].comm.clone(), cpu);
                    proof {
                        lemma_counting(recs@, i + 1);
                    }
                    n = n + 1;
                }
            },
            None => {},
        }
        i = i + 1;
    }
    assert(recs@.take(i as int) =~= recs@);
    (Learned { shares }, n)
}

// ---------------------------------------------------------------------------
// A process
// ---------------------------------------------------------------------------

/// What is known of a process. Times are nanoseconds on a clock that never goes
/// back.
#[derive(Debug)]
pub struct ProcState {
    pub comm: String,
    pub last_ticks: u64,
    pub last_syscr: u64,
    pub last_ts: u64,
    pub smooth_cpu: Scalar,
    pub current_nice: i32,
}

/// What a process did since the last look at it.
#[derive(Clone, Copy, Debug)]
pub struct Delta {
    pub ticks: u64,
    pub syscr: u64,
    pub elapsed_ns: u64,
}

/// How far a counter went on; not at all, if it fell.
pub open spec fn grown(from: u64, to: u64) -> u64 {
    if to > from {
        (to - from) as u64
    } else {
        0
    }
}

/// What a process did since the last look, and how long ago that was: at least
/// a tenth of a second, so that a rate can be worked out.
pub open spec fn delta_of(s: ProcState, ticks: u64, syscr: u64, now: u64) -> Delta {
    Delta {
        ticks: grown(s.last_ticks, ticks),
        syscr: grown(s.last_syscr, syscr),
        elapsed_ns: if grown(s.last_ts, now) > MIN_ELAPSED_NS {
            grown(s.last_ts, now)
        } else {
            MIN_ELAPSED_NS
        },
    }
}

impl ProcState {
    /// A process that was just found. It counts as if it had been looked at one
    /// round ago, and it has not been given a nice value.
    pub fn new(comm: String, ticks: u64, syscr: u64, learned_cpu: Scalar, now: u64) -> (r: Self)
        requires
            now >= CYCLE_NS,
        ensures
            r == (ProcState {
                comm,
                last_ticks: ticks,
                last_syscr: syscr,
                last_ts: (now - CYCLE_NS) as u64,
                smooth_cpu: learned_cpu,
                current_nice: 0,
            }),
    {
        ProcState {
            comm,
            last_ticks: ticks,
            last_syscr: syscr,
            last_ts: now - CYCLE_NS,
            smooth_cpu: learned_cpu,
            current_nice: 0,
        }
    }

    /// What the process did since the last look at it.
    pub fn measure(&self, ticks: u64, syscr: u64, now: u64) -> (r: Delta)
        ensures
            r == delta_of(*self, ticks, syscr, now),
    {
        let elapsed: u64 = now.saturating_sub(self.last_ts);
        Delta {
            ticks: ticks.saturating_sub(self.last_ticks),
            syscr: syscr.saturating_sub(self.last_syscr),
            elapsed_ns: if elapsed > MIN_ELAPSED_NS {
                elapsed
            } else {
                MIN_ELAPSED_NS
            },
        }
    }

    /// Takes in a look at the process, with the share that follows from it.
    pub fn update(&mut self, ticks: u64, syscr: u64, smooth_cpu: Scalar, now: u64)
        ensures
            *final(self) == (ProcState {
                last_ticks: ticks,
                last_syscr: syscr,
                last_ts: now,
                smooth_cpu,
                ..*old(self)
            }),
    {
        self.smooth_cpu = smooth_cpu;
        self.last_ticks = ticks;
        self.last_syscr = syscr;
        self.last_ts = now;
    }
}

// ---------------------------------------------------------------------------
// All processes
// ---------------------------------------------------------------------------

/// A process in a round: what it is and what it uses.
#[derive(Clone, Copy, Debug)]
pub struct Metric {
    pub pid: Pid,
    pub uid: u32,
    pub cpu_rate: Scalar,
    pub gpu_ema: Scalar,
    pub syscr_rate: Scalar,
}

/// The processes that the scheduler knows.
pub struct Scheduler {
    states: HashMap<Pid, ProcState>,
    my_pid: Pid,
}

/// The state of a process that was just found.
pub open spec fn found(e: ProcEntry, learned: Learned, now: u64) -> ProcState {
    ProcState {
        comm: e.comm,
        last_ticks: e.cpu_ticks,
        last_syscr: e.syscr,
        last_ts: (now - CYCLE_NS) as u64,
        smooth_cpu: learned.of(e.comm@),
        current_nice: 0,
    }
}

/// The processes that are known once those of a scan were met, each under the
/// first entry that has its number. The scheduler itself is none of them.
pub open spec fn enrolled(
    known: Map<Pid, ProcState>,
    entries: Seq<ProcEntry>,
    my_pid: Pid,
    learned: Learned,
    now: u64,
) -> Map<Pid, ProcState>
    decreases entries.len(),
{
    if entries.len() == 0 {
        known
    } else {
        let front = enrolled(known, entries.drop_last(), my_pid, learned, now);
        let e = entries.last();
        if e.pid == my_pid || front.contains_key(e.pid) {
            front
        } else {
            front.insert(e.pid, found(e, learned, now))
        }
    }
}

impl Scheduler {
    /// The state of each process.
    pub closed spec fn view(self) -> Map<Pid, ProcState> {
        self.states@
    }

    /// The number of the scheduler's own process.
    pub closed spec fn own(self) -> Pid {
        self.my_pid
    }

    /// The scheduler leaves its own process alone.
    pub open spec fn wf(self) -> bool {
        !self@.contains_key(self.own())
    }

    /// A scheduler that knows no process.
    pub fn new(my_pid: Pid) -> (r: Scheduler)
        ensures
            r.wf(),
            r@ == Map::<Pid, ProcState>::empty(),
            r.own() == my_pid,
    {
        Scheduler { states: HashMap::new(), my_pid }
    }

    /// How many processes are known.
    pub fn len(&self) -> (n: usize)
        ensures
            n == self@.dom().len(),
    {
        self.states.len()
    }

    /// The state of a process.
    pub fn get(&self, pid: Pid) -> (r: Option<&ProcState>)
        ensures
            r is Some <==> self@.contains_key(pid),
            r matches Some(s) ==> *s == self@[pid],
    {
        self.states.get(&pid)
    }

    /// The numbers of all processes that are known, in any order.
    pub fn pids(&self) -> (r: Vec<Pid>)
        ensures
            r@.no_duplicates(),
            r@.to_set() == self@.dom(),
    {
        let mut out: Vec<Pid> = Vec::new();
        let keys = self.states.keys();
        let ghost all = vstd::std_specs::iter::IteratorSpec::remaining(&keys).unref();
        for k in it: keys
            invariant
                it.seq().unref() == all,
                all.to_set() == self@.dom(),
                it.seq().no_duplicates(),
                out@ == all.take(it.index() as int),
        {
            out.push(*k);
            assert(all.take(it.index() + 1) =~= all.take(it.index() as int).push(*k));
        }
        assert(all.take(all.len() as int) =~= all);
        out
    }

    /// Meets the processes of a scan.
    pub fn enroll(&mut self, entries: &Vec<ProcEntry>, learned: &Learned, now: u64)
        requires
            old(self).wf(),
            now >= CYCLE_NS,
        ensures
            final(self).wf(),
            final(self).own() == old(self).own(),
            final(self)@ == enrolled(old(self)@, entries@, old(self).own(), *learned, now),
    {
        let mut i: usize = 0;
        assert(entries@.take(0) =~= Seq::<ProcEntry>::empty());
        while i < entries.len()
            invariant
                i <= entries@.len(),
                now >= CYCLE_NS,
                self.wf(),
                self.own() == old(self).own(),
                self@ == enrolled(old(self)@, entries@.take(i as int), old(self).own(), *learned, now),
            decreases entries.len() - i,
        {
            let e = &entries[i];
            assert(entries@.take(i + 1).drop_last() =~= entries@.take(i as int));
            if e.pid != self.my_pid && !self.states.contains_key(&e.pid) {
                let share: Scalar = learned.share(e.comm.as_str());
                let s = ProcState::new(e.comm.clone(), e.cpu_ticks, e.syscr, share, now);
                self.states.insert(e.pid, s);
            }
            i = i + 1;
        }
        assert(entries@.take(i as int) =~= entries@);
    }

    /// What a process did since the last look at it. Nothing is told of the
    /// scheduler itself, nor of a process that is not known.
    pub fn measure(&self, e: &ProcEntry, now: u64) -> (r: Option<Delta>)
        requires
            self.wf(),
        ensures
            r == (if self@.contains_key(e.pid) {
                Some(delta_of(self@[e.pid], e.cpu_ticks, e.syscr, now))
            } else {
                None
            }),
    {
        match self.states.get(&e.pid) {
            Some(s) => Some(s.measure(e.cpu_ticks, e.syscr, now)),
            None => None,
        }
    }

    /// Takes in a look at a process, with the share that follows from it.
    pub fn update(&mut self, e: &ProcEntry, smooth_cpu: Scalar, now: u64)
        requires
            old(self).wf(),
        ensures
            final(self).wf(),
            final(self).own() == old(self).own(),
            final(self)@ == (if old(self)@.contains_key(e.pid) {
                old(self)@.insert(
                    e.pid,
                    ProcState {
                        last_ticks: e.cpu_ticks,
                        last_syscr: e.syscr,
                        last_ts: now,
                        smooth_cpu,
                        ..old(self)@[e.pid]
                    },
                )
            } else {
                old(self)@
            }),
    {
        match self.states.remove(&e.pid) {
            Some(mut s) => {
                s.update(e.cpu_ticks, e.syscr, smooth_cpu, now);
                self.states.insert(e.pid, s);
                assert(self@ =~= old(self)@.insert(e.pid, s));
            },
            None => {
                assert(self@ =~= old(self)@);
            },
        }
    }

    /// Settles the nice value of a process, by its density. A value comes back
    /// only if it is another one than before.
    pub fn decide(&mut self, pid: Pid, norm: Scalar) -> (r: Option<i32>)
        requires
            old(self).wf(),
            model::measurable(norm),
        ensures
            final(self).wf(),
            final(self).own() == old(self).own(),
            final(self)@ == settled(old(self)@, pid, model::nice_of(norm)),
            r == change_of(old(self)@, pid, model::nice_of(norm)),
            final(self)@.dom() == old(self)@.dom(),
            old(self)@.contains_key(pid) ==> final(self)@[pid].current_nice == model::nice_of(norm),
            r is Some <==> old(self)@.contains_key(pid) && old(self)@[pid].current_nice
                != model::nice_of(norm),
            r is Some ==> r->0 == model::nice_of(norm),
    {
        let nice: i32 = model::norm_to_nice(norm);
        match self.states.remove(&pid) {
            Some(mut s) => {
                let changed: bool = s.current_nice != nice;
                s.current_nice = nice;
                self.states.insert(pid, s);
                proof {
                    let was = old(self)@[pid];
                    assert(self@ =~= old(self)@.insert(pid, s));
                    if !changed {
                        assert(s == was);
                        assert(old(self)@.insert(pid, was) =~= old(self)@);
                    }
                }
                if changed {
                    Some(nice)
                } else {
                    None
                }
            },
            None => {
                assert(self@ =~= old(self)@);
                None
            },
        }
    }

    /// Settles the nice values of a round, one process after the other, and tells
    /// which values have to be set.
    pub fn assign(&mut self, metrics: &Vec<Metric>, norms: &Vec<Scalar>) -> (r: Vec<(Pid, i32)>)
        requires
            old(self).wf(),
            norms@.len() == metrics@.len(),
            forall|i: int|
                0 <= i < norms@.len() ==> model::measurable(#[trigger] norms@[i]),
        ensures
            final(self).wf(),
            final(self).own() == old(self).own(),
            final(self)@ == assigned(old(self)@, metrics@, norms@),
            r@ == changes_of(old(self)@, metrics@, norms@),
    {
        let mut out: Vec<(Pid, i32)> = Vec::new();
        let mut i: usize = 0;
        assert(metrics@.take(0) =~= Seq::<Metric>::empty());
        while i < metrics.len()
            invariant
                i <= metrics@.len(),
                norms@.len() == metrics@.len(),
                forall|k: int|
                    0 <= k < norms@.len() ==> model::measurable(#[trigger] norms@[k]),
                self.wf(),
                self.own() == old(self).own(),
                self@ == assigned(old(self)@, metrics@.take(i as int), norms@.take(i as int)),
                out@ == changes_of(old(self)@, metrics@.take(i as int), norms@.take(i as int)),
            decreases metrics.len() - i,
        {
            let pid: Pid = metrics[i].pid;
            assert(metrics@.take(i + 1).drop_last() =~= metrics@.take(i as int));
            assert(norms@.take(i + 1).drop_last() =~= norms@.take(i as int));
            match self.decide(pid, norms[i]) {
                Some(nice) => {
                    out.push((pid, nice));
                },
                None => {},
            }
            i = i + 1;
        }
        assert(metrics@.take(i as int) =~= metrics@);
        assert(norms@.take(i as int) =~= norms@);
        out
    }

    /// Forgets the processes that ended, and tells which: they get the nice
    /// value 0 back.
    pub fn sweep(&mut self, alive: &Vec<Pid>) -> (r: Vec<Pid>)
        requires
            old(self).wf(),
        ensures
            final(self).wf(),
            final(self).own() == old(self).own(),
            final(self)@ == old(self)@.restrict(alive@.to_set()),
            r@.no_duplicates(),
            r@.to_set() == old(self)@.dom().difference(alive@.to_set()),
    {
        let all = self.pids();
        let mut dead: Vec<Pid> = Vec::new();
        let mut i: usize = 0;
        let ghost known = old(self)@;
        let ghost living = alive@.to_set();
        while i < all.len()
            invariant
                i <= all@.len(),
                all@.no_duplicates(),
                all@.to_set() == known.dom(),
                living == alive@.to_set(),
                self.wf(),
                self.own() == old(self).own(),
                known == old(self)@,
                dead@.no_duplicates(),
                forall|p: Pid| #[trigger]
                    dead@.contains(p) <==> all@.take(i as int).contains(p) && !living.contains(p),
                self@ == known.remove_keys(dead@.to_set()),
            decreases all.len() - i,
        {
            let pid: Pid = all[i];
            let ghost was = dead@;
            proof {
                lemma_take_one_more(all@, i as int);
            }
            if !is_among(alive, pid) {
                self.states.remove(&pid);
                dead.push(pid);
                proof {
                    lemma_push_distinct(was, pid);
                    assert(dead@.to_set() =~= was.to_set().insert(pid));
                    assert(self@ =~= known.remove_keys(dead@.to_set()));
                }
            }
            i = i + 1;
        }
        proof {
            assert(all@.take(i as int) =~= all@);
            assert forall|p: Pid| #[trigger] dead@.to_set().contains(p) <==> known.dom().contains(p)
                && !living.contains(p) by {
                assert(dead@.to_set().contains(p) <==> dead@.contains(p));
                assert(all@.contains(p) <==> all@.to_set().contains(p));
            }
            assert(dead@.to_set() =~= known.dom().difference(living));
            assert(self@ =~= known.restrict(living));
        }
        dead
    }

    /// What is worth keeping for the next run: of each name the largest share
    /// that a process of it has, the largest of all first. Shares that are not
    /// numbers are never kept; a name that has one may be left out.
    pub fn save_learned(&self) -> (r: Vec<Peak>)
        ensures
            is_saved(r@, self@),
    {
        let all = self.pids();
        let mut peaks: Vec<Peak> = Vec::new();
        let mut i: usize = 0;
        while i < all.len()
            invariant
                i <= all@.len(),
                all@.to_set() == self@.dom(),
                are_peaks(peaks@, self@, all@.take(i as int)),
            decreases all.len() - i,
        {
            let pid: Pid = all[i];
            let ghost was = peaks@;
            assert(all@.contains(pid));
            assert(all@.to_set().contains(pid));
            match self.states.get(&pid) {
                Some(s) => {
                    let at: usize = peak_place(&peaks, &s.comm);
                    if at < peaks.len() {
                        let top: Scalar = peaks[at].cpu;
                        if top.lt(s.smooth_cpu) {
                            peaks[at].cpu = s.smooth_cpu;
                        }
                        proof {
                            lemma_peak_met(was, peaks@, self@, all@, i as int, at as int);
                        }
                    } else {
                        peaks.push(Peak { comm: s.comm.clone(), cpu: s.smooth_cpu });
                        proof {
                            lemma_peak_new(was, peaks@, self@, all@, i as int);
                        }
                    }
                },
                None => {},
            }
            i = i + 1;
        }
        assert(all@.take(i as int) =~= all@);
        let out = falling_peaks(&peaks);
        proof {
            lemma_saved(peaks@, out@, self@, all@);
        }
        out
    }

    /// The processes that a report tells of: the four with the heaviest load, as
    /// far as they use anything to speak of and are still known.
    pub fn status(&self, metrics: &Vec<Metric>, loads: &Vec<Scalar>) -> (r: Vec<StatusRow>)
        requires
            loads@.len() == metrics@.len(),
            comparable(loads@),
        ensures
            exists|by: Seq<usize>| #[trigger]
                order::is_order(loads@, by) && r@ == shown(self@, metrics@, by.take(top_of(by))),
    {
        let by = by_load(loads);
        let mut out: Vec<StatusRow> = Vec::new();
        let n: usize = if by.len() < STATUS_ROWS {
            by.len()
        } else {
            STATUS_ROWS
        };
        let ghost top = by@.take(top_of(by@));
        let mut i: usize = 0;
        assert(top.take(0) =~= Seq::<usize>::empty());
        while i < n
            invariant
                i <= n,
                n == top.len(),
                n <= by@.len(),
                loads@.len() == metrics@.len(),
                order::is_order(loads@, by@),
                top == by@.take(top_of(by@)),
                out@ == shown(self@, metrics@, top.take(i as int)),
            decreases n - i,
        {
            assert(top.take(i + 1).drop_last() =~= top.take(i as int));
            assert(top.take(i + 1).last() == by@[i as int]);
            let at: usize = by[i];
            let m: Metric = metrics[at];
            let busy: bool = !(m.cpu_rate.lt(Scalar { bits: CPU_SHOWN_BITS }) && m.gpu_ema.lt(
                Scalar { bits: GPU_SHOWN_BITS },
            ));
            if busy && self.states.contains_key(&m.pid) {
                let gpu_bits: Scalar = Scalar { bits: GPU_SHOWN_BITS };
                out.push(StatusRow { index: at, with_gpu: gpu_bits.lt(m.gpu_ema) });
            }
            i = i + 1;
        }
        assert(top.take(n as int) =~= top);
        out
    }
}

// ---------------------------------------------------------------------------
// Nice values
// ---------------------------------------------------------------------------

/// The processes once one of them has a nice value.
pub open spec fn settled(known: Map<Pid, ProcState>, pid: Pid, nice: int) -> Map<Pid, ProcState> {
    if known.contains_key(pid) {
        known.insert(pid, ProcState { current_nice: nice as i32, ..known[pid] })
    } else {
        known
    }
}

/// The nice value that has to be set, if it is another one than before.
pub open spec fn change_of(known: Map<Pid, ProcState>, pid: Pid, nice: int) -> Option<i32> {
    if known.contains_key(pid) && known[pid].current_nice != nice {
        Some(nice as i32)
    } else {
        None
    }
}

/// The processes once all of a round have their nice values.
pub open spec fn assigned(
    known: Map<Pid, ProcState>,
    metrics: Seq<Metric>,
    norms: Seq<Scalar>,
) -> Map<Pid, ProcState>
    decreases metrics.len(),
{
    if metrics.len() == 0 {
        known
    } else {
        settled(
            assigned(known, metrics.drop_last(), norms.drop_last()),
            metrics.last().pid,
            model::nice_of(norms.last()),
        )
    }
}

/// The nice values that have to be set in a round, in their order.
pub open spec fn changes_of(
    known: Map<Pid, ProcState>,
    metrics: Seq<Metric>,
    norms: Seq<Scalar>,
) -> Seq<(Pid, i32)>
    decreases metrics.len(),
{
    if metrics.len() == 0 {
        Seq::empty()
    } else {
        let so_far = assigned(known, metrics.drop_last(), norms.drop_last());
        let front = changes_of(known, metrics.drop_last(), norms.drop_last());
        match change_of(so_far, metrics.last().pid, model::nice_of(norms.last())) {
            Some(nice) => front.push((metrics.last().pid, nice)),
            None => front,
        }
    }
}

/// What is left to do at the start of a round if the flag for a shutdown is up:
/// to give every process that is known the nice value 0 back. If it is down, the
/// round goes on.
pub fn shutdown_requested(flag_up: bool, sched: &Scheduler) -> (r: Option<Vec<Pid>>)
    ensures
        r is Some <==> flag_up,
        r matches Some(v) ==> v@.no_duplicates() && v@.to_set() == sched@.dom(),
{
    if flag_up {
        Some(sched.pids())
    } else {
        None
    }
}

/// Whether a number is in a list.
fn is_among(list: &Vec<Pid>, pid: Pid) -> (r: bool)
    ensures
        r == list@.to_set().contains(pid),
{
    let mut i: usize = 0;
    while i < list.len()
        invariant
            i <= list@.len(),
            forall|j: int| 0 <= j < i ==> list@[j] != pid,
        decreases list.len() - i,
    {
        if list[i] == pid {
            assert(list@.contains(pid));
            return true;
        }
        i = i + 1;
    }
    false
}

proof fn lemma_take_one_more(s: Seq<Pid>, n: int)
    requires
        0 <= n < s.len(),
        s.no_duplicates(),
    ensures
        forall|p: Pid| #[trigger]
            s.take(n + 1).contains(p) <==> s.take(n).contains(p) || p == s[n],
        !s.take(n).contains(s[n]),
{
    let (a, b) = (s.take(n), s.take(n + 1));
    assert forall|p: Pid| #[trigger] b.contains(p) <==> a.contains(p) || p == s[n] by {
        if a.contains(p) {
            let j = choose|j: int| 0 <= j < a.len() && a[j] == p;
            assert(b[j] == p);
        }
        if p == s[n] {
            assert(b[n] == p);
        }
        if b.contains(p) && p != s[n] {
            let j = choose|j: int| 0 <= j < b.len() && b[j] == p;
            assert(a[j] == p);
        }
    }
}

proof fn lemma_push_distinct(s: Seq<Pid>, p: Pid)
    requires
        s.no_duplicates(),
        !s.contains(p),
    ensures
        s.push(p).no_duplicates(),
        forall|q: Pid| #[trigger] s.push(p).contains(q) <==> s.contains(q) || q == p,
{
    let t = s.push(p);
    assert forall|i: int, j: int| 0 <= i < t.len() && 0 <= j < t.len() && i != j implies t[i]
        != t[j] by {
        if i < s.len() && j < s.len() {
            assert(s[i] != s[j]);
        } else if i < s.len() {
            assert(s.contains(s[i]));
        } else {
            assert(s.contains(s[j]));
        }
    }
    assert forall|q: Pid| #[trigger] t.contains(q) <==> s.contains(q) || q == p by {
        if s.contains(q) {
            let j = choose|j: int| 0 <= j < s.len() && s[j] == q;
            assert(t[j] == q);
        }
        if q == p {
            assert(t[s.len() as int] == p);
        }
        if t.contains(q) && q != p {
            let j = choose|j: int| 0 <= j < t.len() && t[j] == q;
            assert(s[j] == q);
        }
    }
}

// ---------------------------------------------------------------------------
// What is kept
// ---------------------------------------------------------------------------

/// The largest share of a name.
#[derive(Debug)]
pub struct Peak {
    pub comm: String,
    pub cpu: Scalar,
}

/// Whether no name comes up twice.
pub open spec fn distinct(v: Seq<Peak>) -> bool {
    forall|i: int, j: int|
        0 <= i < j < v.len() ==> (#[trigger] v[i]).comm@ != (#[trigger] v[j]).comm@
}

/// Whether a process of that name has that share.
pub open spec fn attained(p: Peak, known: Map<Pid, ProcState>) -> bool {
    exists|pid: Pid| #[trigger]
        known.contains_key(pid) && known[pid].comm@ == p.comm@ && known[pid].smooth_cpu == p.cpu
}

/// Whether no process of that name has a larger share.
pub open spec fn on_top(p: Peak, known: Map<Pid, ProcState>) -> bool {
    forall|pid: Pid| #[trigger]
        known.contains_key(pid) && known[pid].comm@ == p.comm@ && !known[pid].smooth_cpu.nan()
            ==> known[pid].smooth_cpu.rank() <= p.cpu.rank()
}

/// Whether all the shares of a name are numbers.
pub open spec fn sound_name(comm: Seq<char>, known: Map<Pid, ProcState>) -> bool {
    forall|pid: Pid| #[trigger]
        known.contains_key(pid) && known[pid].comm@ == comm ==> !known[pid].smooth_cpu.nan()
}

/// Whether some rows have a name.
pub open spec fn has_name(v: Seq<Peak>, comm: Seq<char>) -> bool {
    exists|i: int| 0 <= i < v.len() && (#[trigger] v[i]).comm@ == comm
}

/// What is kept of some processes. Each row tells the largest share of a name,
/// and that share is worth keeping; every name with such a share is there,
/// unless one of its shares is not a number; the largest share comes first.
pub open spec fn is_saved(v: Seq<Peak>, known: Map<Pid, ProcState>) -> bool {
    &&& distinct(v)
    &&& forall|i: int|
        0 <= i < v.len() ==> attained(#[trigger] v[i], known) && on_top(v[i], known)
            && worth_keeping(v[i].cpu)
    &&& forall|pid: Pid| #[trigger]
        known.contains_key(pid) && worth_keeping(known[pid].smooth_cpu) && sound_name(
            known[pid].comm@,
            known,
        ) ==> has_name(v, known[pid].comm@)
    &&& forall|i: int, j: int|
        0 <= i < j < v.len() ==> (#[trigger] v[i]).cpu.rank() >= (#[trigger] v[j]).cpu.rank()
}

/// The rows for some of the processes, before any is left out.
spec fn are_peaks(v: Seq<Peak>, known: Map<Pid, ProcState>, pids: Seq<Pid>) -> bool {
    &&& distinct(v)
    &&& forall|i: int| 0 <= i < v.len() ==> attained(#[trigger] v[i], known)
    &&& forall|i: int, k: int|
        0 <= i < v.len() && 0 <= k < pids.len() && known[pids[k]].comm@ == v[i].comm@
            && !known[pids[k]].smooth_cpu.nan() && !v[i].cpu.nan()
            ==> (#[trigger] known[pids[k]]).smooth_cpu.rank() <= (#[trigger] v[i]).cpu.rank()
    &&& forall|k: int| 0 <= k < pids.len() ==> has_name(v, (#[trigger] known[pids[k]]).comm@)
}

/// Where a name stands among the rows; their number, if it does not.
fn peak_place(v: &Vec<Peak>, comm: &String) -> (r: usize)
    ensures
        r <= v@.len(),
        r < v@.len() ==> v@[r as int].comm@ == comm@,
        r == v@.len() ==> !has_name(v@, comm@),
{
    let mut i: usize = 0;
    while i < v.len()
        invariant
            i <= v@.len(),
            forall|j: int| 0 <= j < i ==> (#[trigger] v@[j]).comm@ != comm@,
        decreases v.len() - i,
    {
        if v[i].comm == *comm {
            return i;
        }
        i = i + 1;
    }
    i
}

proof fn lemma_peak_met(
    was: Seq<Peak>,
    now: Seq<Peak>,
    known: Map<Pid, ProcState>,
    pids: Seq<Pid>,
    n: int,
    at: int,
)
    requires
        0 <= n < pids.len(),
        are_peaks(was, known, pids.take(n)),
        known.contains_key(pids[n]),
        0 <= at < was.len(),
        was[at].comm@ == known[pids[n]].comm@,
        now.len() == was.len(),
        forall|i: int| 0 <= i < was.len() && i != at ==> now[i] == was[i],
        now[at].comm@ == was[at].comm@,
        now[at].cpu == (if was[at].cpu.below(known[pids[n]].smooth_cpu) {
            known[pids[n]].smooth_cpu
        } else {
            was[at].cpu
        }),
    ensures
        are_peaks(now, known, pids.take(n + 1)),
{
    let a = pids.take(n);
    let b = pids.take(n + 1);
    let s = known[pids[n]];
    assert forall|i: int, j: int| 0 <= i < j < now.len() implies (#[trigger] now[i]).comm@ != (
    #[trigger] now[j]).comm@ by {
        assert(was[i].comm@ != was[j].comm@);
    }
    assert forall|i: int| 0 <= i < now.len() implies attained(#[trigger] now[i], known) by {
        assert(attained(was[i], known));
        if i == at {
            if now[at].cpu == s.smooth_cpu && now[at].cpu != was[at].cpu {
                assert(known.contains_key(pids[n]));
            } else {
                let pid = choose|pid: Pid| #[trigger]
                    known.contains_key(pid) && known[pid].comm@ == was[at].comm@
                        && known[pid].smooth_cpu == was[at].cpu;
                assert(known.contains_key(pid));
            }
        }
    }
    assert forall|i: int, k: int|
        0 <= i < now.len() && 0 <= k < b.len() && known[b[k]].comm@ == now[i].comm@
            && !known[b[k]].smooth_cpu.nan() && !now[i].cpu.nan() implies (#[trigger] known[b[k]]).smooth_cpu.rank()
        <= (#[trigger] now[i]).cpu.rank() by {
        assert(was[i].comm@ == now[i].comm@);
        if k < n {
            assert(a[k] == b[k]);
            assert(known[a[k]].comm@ == was[i].comm@);
        } else if i != at {
            // Then the name would come up twice.
            assert(was[i].comm@ == was[at].comm@);
        }
    }
    assert forall|k: int| 0 <= k < b.len() implies has_name(now, (#[trigger] known[b[k]]).comm@) by {
        if k < n {
            assert(a[k] == b[k]);
            assert(has_name(was, known[a[k]].comm@));
            let i = choose|i: int| 0 <= i < was.len() && (#[trigger] was[i]).comm@ == known[a[k]].comm@;
            assert(now[i].comm@ == known[b[k]].comm@);
        } else {
            assert(now[at].comm@ == known[b[k]].comm@);
        }
    }
}

proof fn lemma_peak_new(
    was: Seq<Peak>,
    now: Seq<Peak>,
    known: Map<Pid, ProcState>,
    pids: Seq<Pid>,
    n: int,
)
    requires
        0 <= n < pids.len(),
        are_peaks(was, known, pids.take(n)),
        known.contains_key(pids[n]),
        !has_name(was, known[pids[n]].comm@),
        now.len() == was.len() + 1,
        forall|i: int| 0 <= i < was.len() ==> now[i] == was[i],
        now.last().comm@ == known[pids[n]].comm@,
        now.last().cpu == known[pids[n]].smooth_cpu,
    ensures
        are_peaks(now, known, pids.take(n + 1)),
{
    let a = pids.take(n);
    let b = pids.take(n + 1);
    let at = was.len() as int;
    assert forall|i: int, j: int| 0 <= i < j < now.len() implies (#[trigger] now[i]).comm@ != (
    #[trigger] now[j]).comm@ by {
        if j < at {
            assert(was[i].comm@ != was[j].comm@);
        } else {
            assert(was[i].comm@ == now[i].comm@);
        }
    }
    assert forall|i: int| 0 <= i < now.len() implies attained(#[trigger] now[i], known) by {
        if i < at {
            assert(attained(was[i], known));
        } else {
            assert(known.contains_key(pids[n]));
        }
    }
    assert forall|i: int, k: int|
        0 <= i < now.len() && 0 <= k < b.len() && known[b[k]].comm@ == now[i].comm@
            && !known[b[k]].smooth_cpu.nan() && !now[i].cpu.nan() implies (#[trigger] known[b[k]]).smooth_cpu.rank()
        <= (#[trigger] now[i]).cpu.rank() by {
        if k < n {
            assert(a[k] == b[k]);
            if i < at {
                assert(known[a[k]].comm@ == was[i].comm@);
            } else {
                assert(has_name(was, known[a[k]].comm@));
            }
        } else if i < at {
            assert(was[i].comm@ == known[pids[n]].comm@);
        }
    }
    assert forall|k: int| 0 <= k < b.len() implies has_name(now, (#[trigger] known[b[k]]).comm@) by {
        if k < n {
            assert(a[k] == b[k]);
            assert(has_name(was, known[a[k]].comm@));
            let i = choose|i: int| 0 <= i < was.len() && (#[trigger] was[i]).comm@ == known[a[k]].comm@;
            assert(now[i].comm@ == known[b[k]].comm@);
        } else {
            assert(now[at].comm@ == known[b[k]].comm@);
        }
    }
}

/// Whether `out` holds the rows of `v` that are worth keeping, by falling share.
spec fn sifted(v: Seq<Peak>, out: Seq<Peak>) -> bool {
    &&& distinct(out)
    &&& forall|i: int|
        0 <= i < out.len() ==> worth_keeping((#[trigger] out[i]).cpu) && exists|k: int|
            0 <= k < v.len() && (#[trigger] v[k]).comm@ == out[i].comm@ && v[k].cpu == out[i].cpu
    &&& forall|k: int|
        0 <= k < v.len() && worth_keeping((#[trigger] v[k]).cpu) ==> has_name(out, v[k].comm@)
    &&& forall|i: int, j: int|
        0 <= i < j < out.len() ==> (#[trigger] out[i]).cpu.rank() >= (#[trigger] out[j]).cpu.rank()
}

/// The rows that are worth keeping, the largest share first.
fn falling_peaks(v: &Vec<Peak>) -> (r: Vec<Peak>)
    requires
        distinct(v@),
    ensures
        sifted(v@, r@),
{
    let mut kept: Vec<usize> = Vec::new();
    let mut keys: Vec<Scalar> = Vec::new();
    let mut i: usize = 0;
    while i < v.len()
        invariant
            i <= v@.len(),
            kept@.len() == keys@.len(),
            kept@.len() <= i,
            order::all_numbers(keys@),
            forall|k: int| 0 <= k < kept@.len() ==> (#[trigger] kept@[k]) < i,
            forall|k: int|
                0 <= k < kept@.len() ==> keys@[k] == v@[(#[trigger] kept@[k]) as int].cpu
                    && worth_keeping(keys@[k]),
            forall|k: int, l: int| 0 <= k < l < kept@.len() ==> kept@[k] < kept@[l],
            forall|j: int|
                0 <= j < i && worth_keeping((#[trigger] v@[j]).cpu) ==> kept@.contains(j as usize),
        decreases v.len() - i,
    {
        let keep: Scalar = Scalar { bits: KEEP_BITS };
        let ghost was = kept@;
        if keep.lt(v[i].cpu) {
            kept.push(i);
            keys.push(v[i].cpu);
        }
        assert forall|j: int|
            0 <= j < i + 1 && worth_keeping((#[trigger] v@[j]).cpu) implies kept@.contains(
            j as usize,
        ) by {
            if j < i {
                assert(was.contains(j as usize));
                let k = choose|k: int| 0 <= k < was.len() && was[k] == j as usize;
                assert(kept@[k] == j as usize);
            } else {
                assert(kept@[was.len() as int] == i);
            }
        }
        i = i + 1;
    }
    let by = order::falling(&keys);
    let mut out: Vec<Peak> = Vec::new();
    let mut n: usize = 0;
    while n < by.len()
        invariant
            n <= by@.len(),
            out@.len() == n,
            order::is_order(keys@, by@),
            kept@.len() == keys@.len(),
            forall|k: int| 0 <= k < kept@.len() ==> (#[trigger] kept@[k]) < v@.len(),
            forall|i: int|
                0 <= i < n ==> (#[trigger] out@[i]).comm@ == v@[kept@[by@[i] as int] as int].comm@
                    && out@[i].cpu == v@[kept@[by@[i] as int] as int].cpu,
        decreases by.len() - n,
    {
        assert(by@[n as int] < keys@.len());
        let at: usize = kept[by[n]];
        out.push(Peak { comm: v[at].comm.clone(), cpu: v[at].cpu });
        n = n + 1;
    }
    proof {
        assert forall|i: int, j: int| 0 <= i < j < out@.len() implies (#[trigger] out@[i]).comm@
            != (#[trigger] out@[j]).comm@ && out@[i].cpu.rank() >= out@[j].cpu.rank() by {
            let (p, q) = (by@[i] as int, by@[j] as int);
            assert(order::precedes(keys@, p, q));
            assert(by@[i] < keys@.len() && by@[j] < keys@.len());
            assert(p != q);
            let (a, b) = (kept@[p] as int, kept@[q] as int);
            assert(a != b) by {
                if p < q {
                    assert(kept@[p] < kept@[q]);
                } else {
                    assert(kept@[q] < kept@[p]);
                }
            }
            if a < b {
                assert(v@[a].comm@ != v@[b].comm@);
            } else {
                assert(v@[b].comm@ != v@[a].comm@);
            }
        }
        assert forall|i: int| 0 <= i < out@.len() implies worth_keeping((#[trigger] out@[i]).cpu)
            && exists|k: int|
            0 <= k < v@.len() && (#[trigger] v@[k]).comm@ == out@[i].comm@ && v@[k].cpu
                == out@[i].cpu by {
            assert(by@[i] < keys@.len());
            let k = kept@[by@[i] as int] as int;
            assert(v@[k].comm@ == out@[i].comm@);
        }
        assert forall|k: int| 0 <= k < v@.len() && worth_keeping((#[trigger] v@[k]).cpu) implies has_name(
            out@,
            v@[k].comm@,
        ) by {
            assert(kept@.contains(k as usize));
            let p = choose|p: int| 0 <= p < kept@.len() && kept@[p] == k as usize;
            assert(by@.contains(p as usize));
            let i = choose|i: int| 0 <= i < by@.len() && by@[i] == p as usize;
            assert(out@[i].comm@ == v@[k].comm@);
        }
    }
    out
}

proof fn lemma_saved(v: Seq<Peak>, out: Seq<Peak>, known: Map<Pid, ProcState>, pids: Seq<Pid>)
    requires
        are_peaks(v, known, pids),
        pids.to_set() == known.dom(),
        sifted(v, out),
    ensures
        is_saved(out, known),
{
    assert forall|i: int| 0 <= i < out.len() implies attained(#[trigger] out[i], known) && on_top(
        out[i],
        known,
    ) && worth_keeping(out[i].cpu) by {
        let k = choose|k: int|
            0 <= k < v.len() && (#[trigger] v[k]).comm@ == out[i].comm@ && v[k].cpu == out[i].cpu;
        assert(attained(v[k], known));
        let w = choose|w: Pid| #[trigger]
            known.contains_key(w) && known[w].comm@ == v[k].comm@ && known[w].smooth_cpu == v[k].cpu;
        assert(known.contains_key(w) && known[w].comm@ == out[i].comm@ && known[w].smooth_cpu
            == out[i].cpu);
        assert forall|pid: Pid| #[trigger]
            known.contains_key(pid) && known[pid].comm@ == out[i].comm@
                && !known[pid].smooth_cpu.nan() implies known[pid].smooth_cpu.rank()
            <= out[i].cpu.rank() by {
            assert(pids.to_set().contains(pid));
            let p = choose|p: int| 0 <= p < pids.len() && pids[p] == pid;
            assert(known[pids[p]].comm@ == v[k].comm@);
        }
    }
    assert forall|pid: Pid| #[trigger]
        known.contains_key(pid) && worth_keeping(known[pid].smooth_cpu) && sound_name(
            known[pid].comm@,
            known,
        ) implies has_name(out, known[pid].comm@) by {
        assert(pids.to_set().contains(pid));
        let p = choose|p: int| 0 <= p < pids.len() && pids[p] == pid;
        assert(has_name(v, known[pids[p]].comm@));
        let k = choose|k: int| 0 <= k < v.len() && (#[trigger] v[k]).comm@ == known[pid].comm@;
        // The row of that name holds a number, and one that is no smaller.
        assert(attained(v[k], known));
        let w = choose|w: Pid| #[trigger]
            known.contains_key(w) && known[w].comm@ == v[k].comm@ && known[w].smooth_cpu == v[k].cpu;
        assert(known.contains_key(w));
        assert(!v[k].cpu.nan());
        assert(known[pids[p]].smooth_cpu.rank() <= v[k].cpu.rank());
        assert(worth_keeping(v[k].cpu));
    }
}

// ---------------------------------------------------------------------------
// Rates and loads
// ---------------------------------------------------------------------------

/// How many processes a report tells of.
pub const STATUS_ROWS: usize = 4;

/// The pattern of 0.02: a smaller CPU share is not worth a report.
pub const CPU_SHOWN_BITS: u64 = 0x3F94_7AE1_47AE_147B;

/// The pattern of 0.05: a smaller GPU share is not worth a report.
pub const GPU_SHOWN_BITS: u64 = 0x3FA9_9999_9999_999A;

/// A process that a report tells of, by its place among the metrics, and whether
/// the report tells of its GPU share.
#[derive(Clone, Copy, Debug)]
pub struct StatusRow {
    pub index: usize,
    pub with_gpu: bool,
}

/// Whether `r` is the rate against which all others are measured: the largest
/// one that is a number, but at least one.
pub open spec fn is_scale(r: Scalar, metrics: Seq<Metric>) -> bool {
    &&& !r.nan()
    &&& r.rank() >= ONE_BITS
    &&& r.bits == ONE_BITS || exists|i: int|
        0 <= i < metrics.len() && (#[trigger] metrics[i]).syscr_rate == r
    &&& forall|i: int|
        0 <= i < metrics.len() && !(#[trigger] metrics[i]).syscr_rate.nan()
            ==> metrics[i].syscr_rate.rank() <= r.rank()
}

/// The rate of read calls against which all others are measured.
pub fn max_syscr(metrics: &Vec<Metric>) -> (r: Scalar)
    ensures
        is_scale(r, metrics@),
{
    let mut top: Scalar = Scalar { bits: ONE_BITS };
    let mut i: usize = 0;
    while i < metrics.len()
        invariant
            i <= metrics@.len(),
            is_scale(top, metrics@.take(i as int)),
        decreases metrics.len() - i,
    {
        let ghost was = top;
        let ghost (a, b) = (metrics@.take(i as int), metrics@.take(i + 1));
        top = top.max(metrics[i].syscr_rate);
        proof {
            assert(b[i as int] == metrics@[i as int]);
            if top == was && was.bits != ONE_BITS {
                let k = choose|k: int| 0 <= k < a.len() && (#[trigger] a[k]).syscr_rate == was;
                assert(b[k].syscr_rate == was);
            }
            assert forall|k: int| 0 <= k < b.len() && !(#[trigger] b[k]).syscr_rate.nan() implies b[k].syscr_rate.rank()
                <= top.rank() by {
                if k < i {
                    assert(a[k] == b[k]);
                }
            }
        }
        i = i + 1;
    }
    assert(metrics@.take(i as int) =~= metrics@);
    top
}

/// Whether some loads can be put in order.
pub open spec fn comparable(loads: Seq<Scalar>) -> bool {
    loads.len() <= 1 || order::all_numbers(loads)
}

/// Whether some loads can be put in order.
pub fn is_comparable(loads: &Vec<Scalar>) -> (r: bool)
    ensures
        r == comparable(loads@),
{
    if loads.len() <= 1 {
        return true;
    }
    let mut i: usize = 0;
    while i < loads.len()
        invariant
            i <= loads@.len(),
            loads@.len() > 1,
            forall|k: int| 0 <= k < i ==> !(#[trigger] loads@[k]).nan(),
        decreases loads.len() - i,
    {
        if loads[i].is_nan() {
            assert(!order::all_numbers(loads@));
            return false;
        }
        i = i + 1;
    }
    true
}

/// The order of the processes by falling load.
fn by_load(loads: &Vec<Scalar>) -> (r: Vec<usize>)
    requires
        comparable(loads@),
    ensures
        order::is_order(loads@, r@),
{
    if loads.len() > 1 {
        return order::falling(loads);
    }
    let mut out: Vec<usize> = Vec::new();
    if loads.len() == 1 {
        out.push(0);
        assert(out@[0] == 0);
    }
    out
}

/// How many of the first are told of.
pub open spec fn top_of(by: Seq<usize>) -> int {
    if by.len() < STATUS_ROWS {
        by.len() as int
    } else {
        STATUS_ROWS as int
    }
}

/// What a report tells of some processes.
pub open spec fn shown(
    known: Map<Pid, ProcState>,
    metrics: Seq<Metric>,
    by: Seq<usize>,
) -> Seq<StatusRow>
    decreases by.len(),
{
    if by.len() == 0 {
        Seq::empty()
    } else {
        let front = shown(known, metrics, by.drop_last());
        let m = metrics[by.last() as int];
        let idle = m.cpu_rate.below(Scalar { bits: CPU_SHOWN_BITS }) && m.gpu_ema.below(
            Scalar { bits: GPU_SHOWN_BITS },
        );
        if !idle && known.contains_key(m.pid) {
            front.push(
                StatusRow {
                    index: by.last(),
                    with_gpu: (Scalar { bits: GPU_SHOWN_BITS }).below(m.gpu_ema),
                },
            )
        } else {
            front
        }
    }
}

// ---------------------------------------------------------------------------
// Laws
// ---------------------------------------------------------------------------

/// A nice value that was settled is not set a second time.
pub proof fn law_settled_is_settled(known: Map<Pid, ProcState>, pid: Pid, norm: Scalar)
    ensures
        change_of(settled(known, pid, model::nice_of(norm)), pid, model::nice_of(norm)) is None,
        settled(settled(known, pid, model::nice_of(norm)), pid, model::nice_of(norm)) == settled(
            known,
            pid,
            model::nice_of(norm),
        ),
{
    let nice = model::nice_of(norm);
    model::law_nice_range(norm);
    let once = settled(known, pid, nice);
    assert(settled(once, pid, nice) =~= once);
}

/// Settling one process leaves every other as it is, and makes none known or
/// unknown. What the process itself keeps is all but its nice value, which then
/// lies in `-5 ..= 19`.
pub proof fn law_settling_touches_one(known: Map<Pid, ProcState>, pid: Pid, norm: Scalar, other: Pid)
    ensures
        settled(known, pid, model::nice_of(norm)).dom() == known.dom(),
        other != pid ==> settled(known, pid, model::nice_of(norm))[other] == known[other],
        known.contains_key(pid) ==> {
            let s = settled(known, pid, model::nice_of(norm))[pid];
            &&& -5 <= s.current_nice <= 19
            &&& s == (ProcState { current_nice: s.current_nice, ..known[pid] })
        },
{
    model::law_nice_range(norm);
    let now = settled(known, pid, model::nice_of(norm));
    assert(now.dom() =~= known.dom());
}

/// No process slips away with a nice value that was given to it: one that is
/// forgotten was told of as ended, one that lives is still known, unchanged.
pub proof fn law_nobody_slips_away(known: Map<Pid, ProcState>, alive: Set<Pid>, pid: Pid)
    requires
        known.contains_key(pid),
    ensures
        known.restrict(alive).contains_key(pid) <==> alive.contains(pid),
        known.dom().difference(alive).contains(pid) <==> !alive.contains(pid),
        alive.contains(pid) ==> known.restrict(alive)[pid] == known[pid],
{
}

/// A scan forgets nobody and changes nobody who is known; whoever it finds is
/// known then, but for the scheduler itself.
pub proof fn law_enrolling_only_adds(
    known: Map<Pid, ProcState>,
    entries: Seq<ProcEntry>,
    my_pid: Pid,
    learned: Learned,
    now: u64,
    pid: Pid,
)
    ensures
        known.contains_key(pid) ==> enrolled(known, entries, my_pid, learned, now).contains_key(pid)
            && enrolled(known, entries, my_pid, learned, now)[pid] == known[pid],
        enrolled(known, entries, my_pid, learned, now).contains_key(pid) <==> known.contains_key(pid)
            || (pid != my_pid && exists|i: int|
            0 <= i < entries.len() && (#[trigger] entries[i]).pid == pid),
    decreases entries.len(),
{
    if entries.len() > 0 {
        let less = entries.drop_last();
        law_enrolling_only_adds(known, less, my_pid, learned, now, pid);
        law_enrolling_only_adds(known, less, my_pid, learned, now, entries.last().pid);
        let last = entries.len() - 1;
        if exists|i: int| 0 <= i < entries.len() && (#[trigger] entries[i]).pid == pid {
            let i = choose|i: int| 0 <= i < entries.len() && (#[trigger] entries[i]).pid == pid;
            if i < last {
                assert(less[i].pid == pid);
            }
        }
        if exists|i: int| 0 <= i < less.len() && (#[trigger] less[i]).pid == pid {
            let i = choose|i: int| 0 <= i < less.len() && (#[trigger] less[i]).pid == pid;
            assert(entries[i].pid == pid);
        }
        assert(entries[last].pid == entries.last().pid);
    }
}

/// However short the time between two looks, a rate can be worked out: a tenth of
/// a second counts at least, and no counter goes back.
pub proof fn law_rates_can_be_worked_out(s: ProcState, ticks: u64, syscr: u64, now: u64)
    ensures
        delta_of(s, ticks, syscr, now).elapsed_ns >= MIN_ELAPSED_NS,
        MIN_ELAPSED_NS > 0,
        delta_of(s, ticks, syscr, now).ticks <= ticks,
        delta_of(s, ticks, syscr, now).syscr <= syscr,
        ticks <= s.last_ticks ==> delta_of(s, ticks, syscr, now).ticks == 0,
        syscr <= s.last_syscr ==> delta_of(s, ticks, syscr, now).syscr == 0,
{
}

/// The share that a process starts with is the one that was saved of its name.
pub proof fn law_learning_is_taken_up(e: ProcEntry, learned: Learned, now: u64)
    ensures
        learned@.contains_key(e.comm@) ==> found(e, learned, now).smooth_cpu == learned@[e.comm@],
        !learned@.contains_key(e.comm@) ==> found(e, learned, now).smooth_cpu.bits == 0,
        found(e, learned, now).current_nice == 0,
{
}

/// What was saved in one run is what the next one starts from: the names that
/// were saved have a share, no others, and each has the one that was read in its
/// row.
pub proof fn law_saved_shares_come_back(saved: Seq<Peak>, recs: Seq<Record>, c: Seq<char>)
    requires
        distinct(saved),
        recs.len() == saved.len(),
        forall|k: int|
            0 <= k < recs.len() ==> (#[trigger] recs[k]).counts() && recs[k].comm@
                == saved[k].comm@,
    ensures
        shares_in(recs).contains_key(c) <==> has_name(saved, c),
        forall|i: int|
            0 <= i < saved.len() && (#[trigger] saved[i]).comm@ == c ==> shares_in(recs)[c]
                == recs[i].cpu->0,
    decreases recs.len(),
{
    if recs.len() > 0 {
        let last = recs.len() - 1;
        let (a, b) = (saved.drop_last(), recs.drop_last());
        assert(distinct(a)) by {
            assert forall|k: int, l: int| 0 <= k < l < a.len() implies (#[trigger] a[k]).comm@ != (
            #[trigger] a[l]).comm@ by {
                assert(saved[k].comm@ != saved[l].comm@);
            }
        }
        assert forall|k: int| 0 <= k < b.len() implies (#[trigger] b[k]).counts() && b[k].comm@
            == a[k].comm@ by {
            assert(recs[k].counts());
        }
        law_saved_shares_come_back(a, b, c);
        assert(recs[last].counts() && recs[last].comm@ == saved[last].comm@);
        if has_name(a, c) {
            let k = choose|k: int| 0 <= k < a.len() && (#[trigger] a[k]).comm@ == c;
            assert(saved[k].comm@ == c);
        }
        if has_name(saved, c) && saved[last].comm@ != c {
            let k = choose|k: int| 0 <= k < saved.len() && (#[trigger] saved[k]).comm@ == c;
            assert(a[k].comm@ == c);
        }
        assert forall|i: int| 0 <= i < saved.len() && (#[trigger] saved[i]).comm@ == c implies shares_in(
            recs,
        )[c] == recs[i].cpu->0 by {
            if i < last {
                assert(a[i].comm@ == c);
                assert(saved[i].comm@ != saved[last].comm@);
            }
        }
    }
}

/// A process that is known has, once it was settled, the nice value of its density,
/// whatever value it had; a value has to be set if and only if that is another one
/// than it had. Of a process that is not known nothing changes.
pub proof fn law_settling_sets_the_value(known: Map<Pid, ProcState>, pid: Pid, norm: Scalar)
    ensures
        known.contains_key(pid) ==> settled(known, pid, model::nice_of(norm)).contains_key(pid)
            && settled(known, pid, model::nice_of(norm))[pid].current_nice == model::nice_of(norm),
        change_of(known, pid, model::nice_of(norm)) is Some <==> known.contains_key(pid)
            && known[pid].current_nice != model::nice_of(norm),
        change_of(known, pid, model::nice_of(norm)) is Some ==> change_of(
            known,
            pid,
            model::nice_of(norm),
        )->0 == model::nice_of(norm),
        !known.contains_key(pid) ==> settled(known, pid, model::nice_of(norm)) == known,
{
    model::law_nice_range(norm);
}

/// A round makes nobody known or unknown, changes nothing but nice values, and
/// leaves alone whoever it has no metric of.
pub proof fn law_round_changes_nice_values_only(
    known: Map<Pid, ProcState>,
    metrics: Seq<Metric>,
    norms: Seq<Scalar>,
    pid: Pid,
)
    requires
        norms.len() == metrics.len(),
    ensures
        assigned(known, metrics, norms).dom() == known.dom(),
        known.contains_key(pid) ==> assigned(known, metrics, norms)[pid] == (ProcState {
            current_nice: assigned(known, metrics, norms)[pid].current_nice,
            ..known[pid]
        }),
        (forall|i: int| 0 <= i < metrics.len() ==> (#[trigger] metrics[i]).pid != pid)
            && known.contains_key(pid) ==> assigned(known, metrics, norms)[pid] == known[pid],
    decreases metrics.len(),
{
    if metrics.len() > 0 {
        let (m, n) = (metrics.drop_last(), norms.drop_last());
        law_round_changes_nice_values_only(known, m, n, pid);
        law_settling_touches_one(assigned(known, m, n), metrics.last().pid, norms.last(), pid);
        if forall|i: int| 0 <= i < metrics.len() ==> (#[trigger] metrics[i]).pid != pid {
            assert forall|i: int| 0 <= i < m.len() implies (#[trigger] m[i]).pid != pid by {
                assert(m[i] == metrics[i]);
            }
            assert(metrics[metrics.len() - 1].pid != pid);
        }
    }
}

/// After a round every known process of which there was a metric has the nice value
/// of the density in its last metric.
pub proof fn law_round_settles_everybody(
    known: Map<Pid, ProcState>,
    metrics: Seq<Metric>,
    norms: Seq<Scalar>,
    i: int,
)
    requires
        norms.len() == metrics.len(),
        0 <= i < metrics.len(),
        known.contains_key(metrics[i].pid),
        forall|j: int| i < j < metrics.len() ==> (#[trigger] metrics[j]).pid != metrics[i].pid,
    ensures
        assigned(known, metrics, norms).contains_key(metrics[i].pid),
        assigned(known, metrics, norms)[metrics[i].pid].current_nice == model::nice_of(norms[i]),
    decreases metrics.len(),
{
    let (m, n) = (metrics.drop_last(), norms.drop_last());
    let last = metrics.len() - 1;
    law_round_changes_nice_values_only(known, m, n, metrics[i].pid);
    law_settling_sets_the_value(assigned(known, m, n), metrics[last].pid, norms[last]);
    if i < last {
        assert forall|j: int| i < j < m.len() implies (#[trigger] m[j]).pid != m[i].pid by {
            assert(m[j] == metrics[j]);
        }
        law_round_settles_everybody(known, m, n, i);
        law_settling_touches_one(
            assigned(known, m, n),
            metrics[last].pid,
            norms[last],
            metrics[i].pid,
        );
        assert(metrics[last].pid != metrics[i].pid);
    }
}

/// In a round with one metric for each process, a value has to be set for exactly
/// those known processes whose nice value is another one than that of the density,
/// in the order of the metrics.
pub proof fn law_round_tells_what_differs(
    known: Map<Pid, ProcState>,
    metrics: Seq<Metric>,
    norms: Seq<Scalar>,
)
    requires
        norms.len() == metrics.len(),
        forall|i: int, j: int|
            0 <= i < j < metrics.len() ==> (#[trigger] metrics[i]).pid != (#[trigger] metrics[j]).pid,
    ensures
        changes_of(known, metrics, norms) == Seq::new(
            metrics.len(),
            |i: int| (metrics[i].pid, norms[i]),
        ).filter_map(
            |p: (Pid, Scalar)|
                if known.contains_key(p.0) && known[p.0].current_nice != model::nice_of(p.1) {
                    Some((p.0, model::nice_of(p.1) as i32))
                } else {
                    None
                },
        ),
    decreases metrics.len(),
{
    let f = |p: (Pid, Scalar)|
        if known.contains_key(p.0) && known[p.0].current_nice != model::nice_of(p.1) {
            Some((p.0, model::nice_of(p.1) as i32))
        } else {
            None
        };
    let pairs = Seq::new(metrics.len(), |i: int| (metrics[i].pid, norms[i]));
    if metrics.len() > 0 {
        let (m, n) = (metrics.drop_last(), norms.drop_last());
        let last = metrics.len() - 1;
        let less = Seq::new(m.len(), |i: int| (m[i].pid, n[i]));
        assert forall|i: int, j: int| 0 <= i < j < m.len() implies (#[trigger] m[i]).pid != (
        #[trigger] m[j]).pid by {
            assert(metrics[i].pid != metrics[j].pid);
        }
        law_round_tells_what_differs(known, m, n);
        assert(pairs.drop_last() =~= less);
        assert forall|i: int| 0 <= i < m.len() implies (#[trigger] m[i]).pid
            != metrics[last].pid by {
            assert(metrics[i].pid != metrics[last].pid);
        }
        law_round_changes_nice_values_only(known, m, n, metrics[last].pid);
        law_settling_sets_the_value(assigned(known, m, n), metrics[last].pid, norms[last]);
        assert(pairs.last() == (metrics[last].pid, norms[last]));
        assert(changes_of(known, metrics, norms) =~= pairs.filter_map(f));
    }
}

/// What a process did between two looks: the counters went from where they were to
/// where they are, unless they fell, and the time did, but for no less than a tenth
/// of a second.
pub proof fn law_deltas(s: ProcState, ticks: u64, syscr: u64, now: u64)
    ensures
        ticks >= s.last_ticks ==> s.last_ticks + delta_of(s, ticks, syscr, now).ticks == ticks,
        syscr >= s.last_syscr ==> s.last_syscr + delta_of(s, ticks, syscr, now).syscr == syscr,
        ticks < s.last_ticks ==> delta_of(s, ticks, syscr, now).ticks == 0,
        syscr < s.last_syscr ==> delta_of(s, ticks, syscr, now).syscr == 0,
        now >= s.last_ts + 100_000_000 ==> s.last_ts + delta_of(s, ticks, syscr, now).elapsed_ns
            == now,
        now < s.last_ts + 100_000_000 ==> delta_of(s, ticks, syscr, now).elapsed_ns == 100_000_000,
{
}

/// A process that was just found counts as looked at 800 milliseconds ago, with the
/// counters it has, the share that was learned of its name, or zero, and the nice
/// value 0.
pub proof fn law_found_processes(e: ProcEntry, learned: Learned, now: u64)
    requires
        now >= 800_000_000,
    ensures
        found(e, learned, now).comm == e.comm,
        found(e, learned, now).last_ticks == e.cpu_ticks,
        found(e, learned, now).last_syscr == e.syscr,
        found(e, learned, now).last_ts == now - 800_000_000,
        found(e, learned, now).current_nice == 0,
        learned@.contains_key(e.comm@) ==> found(e, learned, now).smooth_cpu == learned@[e.comm@],
        !learned@.contains_key(e.comm@) ==> found(e, learned, now).smooth_cpu.bits == 0,
{
}

/// A process that a scan finds for the first time is known as its first entry tells.
pub proof fn law_first_entry_counts(
    known: Map<Pid, ProcState>,
    entries: Seq<ProcEntry>,
    my_pid: Pid,
    learned: Learned,
    now: u64,
    i: int,
)
    requires
        0 <= i < entries.len(),
        entries[i].pid != my_pid,
        !known.contains_key(entries[i].pid),
        forall|j: int| 0 <= j < i ==> (#[trigger] entries[j]).pid != entries[i].pid,
    ensures
        enrolled(known, entries, my_pid, learned, now).contains_key(entries[i].pid),
        enrolled(known, entries, my_pid, learned, now)[entries[i].pid] == found(
            entries[i],
            learned,
            now,
        ),
    decreases entries.len(),
{
    let less = entries.drop_last();
    let last = entries.len() - 1;
    if i < last {
        assert forall|j: int| 0 <= j < i implies (#[trigger] less[j]).pid != less[i].pid by {
            assert(entries[j].pid != entries[i].pid);
        }
        law_first_entry_counts(known, less, my_pid, learned, now, i);
    } else {
        law_enrolling_only_adds(known, less, my_pid, learned, now, entries[i].pid);
        if exists|j: int| 0 <= j < less.len() && (#[trigger] less[j]).pid == entries[i].pid {
            let j = choose|j: int| 0 <= j < less.len() && (#[trigger] less[j]).pid == entries[i].pid;
            assert(entries[j].pid == entries[i].pid);
        }
    }
}

/// A name has a share if and only if a record of it holds one larger than 0.001,
/// and it is that of the last such record.
pub proof fn law_last_record_counts(recs: Seq<Record>, c: Seq<char>)
    ensures
        shares_in(recs).contains_key(c) <==> exists|i: int|
            0 <= i < recs.len() && (#[trigger] recs[i]).comm@ == c && recs[i].cpu is Some && (
            Scalar { bits: 0x3F50_624D_D2F1_A9FC }).below(recs[i].cpu->0),
        forall|i: int|
            0 <= i < recs.len() && (#[trigger] recs[i]).comm@ == c && recs[i].cpu is Some && (
            Scalar { bits: 0x3F50_624D_D2F1_A9FC }).below(recs[i].cpu->0) && (forall|j: int|
                i < j < recs.len() && (#[trigger] recs[j]).comm@ == c ==> recs[j].cpu is None || !(
                Scalar { bits: 0x3F50_624D_D2F1_A9FC }).below(recs[j].cpu->0)) ==> shares_in(
                recs,
            )[c] == recs[i].cpu->0,
        counting(recs) == recs.filter(
            |r: Record|
                r.cpu is Some && (Scalar { bits: 0x3F50_624D_D2F1_A9FC }).below(r.cpu->0),
        ).len(),
    decreases recs.len(),
{
    reveal(Seq::filter);
    if recs.len() > 0 {
        let less = recs.drop_last();
        let last = recs.len() - 1;
        law_last_record_counts(less, c);
        if shares_in(less).contains_key(c) {
            let i = choose|i: int|
                0 <= i < less.len() && (#[trigger] less[i]).comm@ == c && less[i].cpu is Some && (
                Scalar { bits: 0x3F50_624D_D2F1_A9FC }).below(less[i].cpu->0);
            assert(recs[i] == less[i]);
        }
        if exists|i: int|
            0 <= i < recs.len() && (#[trigger] recs[i]).comm@ == c && recs[i].cpu is Some && (
            Scalar { bits: 0x3F50_624D_D2F1_A9FC }).below(recs[i].cpu->0) {
            let i = choose|i: int|
                0 <= i < recs.len() && (#[trigger] recs[i]).comm@ == c && recs[i].cpu is Some && (
                Scalar { bits: 0x3F50_624D_D2F1_A9FC }).below(recs[i].cpu->0);
            if i < last {
                assert(less[i] == recs[i]);
            }
        }
        if shares_in(recs).contains_key(c) && recs[last].comm@ == c && recs[last].counts() {
            assert(recs[last].comm@ == c);
        }
        assert forall|i: int|
            0 <= i < recs.len() && (#[trigger] recs[i]).comm@ == c && recs[i].cpu is Some && (
            Scalar { bits: 0x3F50_624D_D2F1_A9FC }).below(recs[i].cpu->0) && (forall|j: int|
                i < j < recs.len() && (#[trigger] recs[j]).comm@ == c ==> recs[j].cpu is None || !(
                Scalar { bits: 0x3F50_624D_D2F1_A9FC }).below(recs[j].cpu->0)) implies shares_in(
            recs,
        )[c] == recs[i].cpu->0 by {
            if i < last {
                assert(less[i] == recs[i]);
                assert forall|j: int| i < j < less.len() && (#[trigger] less[j]).comm@ == c implies less[j].cpu
                    is None || !(Scalar { bits: 0x3F50_624D_D2F1_A9FC }).below(less[j].cpu->0) by {
                    assert(less[j] == recs[j]);
                }
                assert(recs[last].comm@ == c ==> !recs[last].counts());
            }
        }
    }
}

/// The share of a name that was not learned of is zero.
pub proof fn law_shares(learned: Learned, c: Seq<char>)
    ensures
        learned@.contains_key(c) ==> learned.of(c) == learned@[c],
        !learned@.contains_key(c) ==> learned.of(c).bits == 0,
{
}

/// What is saved of some processes. No name comes up twice. A row holds the share
/// of a process of its name; it is larger than 0.001, and no process of that name
/// has a larger one. A name all of whose shares are numbers has a row if and only if
/// one of them is larger than 0.001. The largest share comes first.
pub proof fn law_saved(v: Seq<Peak>, known: Map<Pid, ProcState>)
    requires
        is_saved(v, known),
    ensures
        forall|i: int, j: int|
            0 <= i < j < v.len() ==> (#[trigger] v[i]).comm@ != (#[trigger] v[j]).comm@
                && v[i].cpu.rank() >= v[j].cpu.rank(),
        forall|i: int|
            0 <= i < v.len() ==> (Scalar { bits: 0x3F50_624D_D2F1_A9FC }).below(
                (#[trigger] v[i]).cpu,
            ) && exists|pid: Pid| #[trigger]
                known.contains_key(pid) && known[pid].comm@ == v[i].comm@ && known[pid].smooth_cpu
                    == v[i].cpu,
        forall|i: int, pid: Pid|
            0 <= i < v.len() && known.contains_key(pid) && (#[trigger] known[pid]).comm@
                == v[i].comm@ ==> !(#[trigger] v[i]).cpu.below(known[pid].smooth_cpu),
        forall|pid: Pid| #[trigger]
            known.contains_key(pid) && (Scalar { bits: 0x3F50_624D_D2F1_A9FC }).below(
                known[pid].smooth_cpu,
            ) && (forall|q: Pid| #[trigger]
                known.contains_key(q) && known[q].comm@ == known[pid].comm@
                    ==> !known[q].smooth_cpu.nan()) ==> exists|i: int|
                0 <= i < v.len() && (#[trigger] v[i]).comm@ == known[pid].comm@,
{
    assert forall|i: int| 0 <= i < v.len() implies (Scalar { bits: 0x3F50_624D_D2F1_A9FC }).below(
        (#[trigger] v[i]).cpu,
    ) && exists|pid: Pid| #[trigger]
        known.contains_key(pid) && known[pid].comm@ == v[i].comm@ && known[pid].smooth_cpu
            == v[i].cpu by {
        assert(attained(v[i], known));
    }
    assert forall|i: int, pid: Pid|
        0 <= i < v.len() && known.contains_key(pid) && (#[trigger] known[pid]).comm@
            == v[i].comm@ implies !(#[trigger] v[i]).cpu.below(known[pid].smooth_cpu) by {
        assert(on_top(v[i], known));
    }
    assert forall|pid: Pid| #[trigger]
        known.contains_key(pid) && (Scalar { bits: 0x3F50_624D_D2F1_A9FC }).below(
            known[pid].smooth_cpu,
        ) && (forall|q: Pid| #[trigger]
            known.contains_key(q) && known[q].comm@ == known[pid].comm@
                ==> !known[q].smooth_cpu.nan()) implies exists|i: int|
        0 <= i < v.len() && (#[trigger] v[i]).comm@ == known[pid].comm@ by {
        assert(sound_name(known[pid].comm@, known));
        assert(has_name(v, known[pid].comm@));
    }
}

/// The rate against which the others are measured is 1, or one of them if that is
/// larger, and no rate is larger than it.
pub proof fn law_scale(r: Scalar, metrics: Seq<Metric>)
    requires
        is_scale(r, metrics),
    ensures
        !r.nan(),
        !r.below(Scalar { bits: 0x3FF0_0000_0000_0000 }),
        r.bits == 0x3FF0_0000_0000_0000 || exists|i: int|
            0 <= i < metrics.len() && (#[trigger] metrics[i]).syscr_rate == r,
        forall|i: int|
            0 <= i < metrics.len() ==> !r.below((#[trigger] metrics[i]).syscr_rate),
{
}

/// A report goes through the first four in the given order, and tells of those that
/// are known and use at least 0.02 of the CPU or 0.05 of the GPU; it tells of the
/// GPU share if that is larger than 0.05.
pub proof fn law_report(known: Map<Pid, ProcState>, metrics: Seq<Metric>, by: Seq<usize>)
    ensures
        shown(known, metrics, by) == by.filter(
            |i: usize|
                known.contains_key(metrics[i as int].pid) && !(metrics[i as int].cpu_rate.below(
                    Scalar { bits: 0x3F94_7AE1_47AE_147B },
                ) && metrics[i as int].gpu_ema.below(Scalar { bits: 0x3FA9_9999_9999_999A })),
        ).map_values(
            |i: usize|
                StatusRow {
                    index: i,
                    with_gpu: (Scalar { bits: 0x3FA9_9999_9999_999A }).below(
                        metrics[i as int].gpu_ema,
                    ),
                },
        ),
        by.len() >= 4 ==> top_of(by) == 4,
        by.len() < 4 ==> top_of(by) == by.len(),
    decreases by.len(),
{
    reveal(Seq::filter);
    let p = |i: usize|
        known.contains_key(metrics[i as int].pid) && !(metrics[i as int].cpu_rate.below(
            Scalar { bits: 0x3F94_7AE1_47AE_147B },
        ) && metrics[i as int].gpu_ema.below(Scalar { bits: 0x3FA9_9999_9999_999A }));
    let f = |i: usize|
        StatusRow {
            index: i,
            with_gpu: (Scalar { bits: 0x3FA9_9999_9999_999A }).below(metrics[i as int].gpu_ema),
        };
    if by.len() > 0 {
        law_report(known, metrics, by.drop_last());
    }
    assert(shown(known, metrics, by) =~= by.filter(p).map_values(f));
}

} // verus!
