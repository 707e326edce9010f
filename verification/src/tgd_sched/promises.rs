//! What the operations of the CPU scheduler promise, each in terms of what goes in
//! and what comes out.

use super::model;
use super::model::Gauss;
use super::scan;
use super::scan::EntryFields;
use super::scan::Pid;
use super::scan::ProcEntry;
use super::scan::ProcFiles;
use super::sched;
use super::sched::Delta;
use super::sched::Due;
use super::sched::Learned;
use super::sched::Metric;
use super::sched::Peak;
use super::sched::ProcState;
use super::sched::Record;
use super::sched::Scheduler;
use super::sched::StatusRow;
use crate::order;
use crate::scalar::Scalar;
use crate::text;
use vstd::prelude::*;

verus! {

/// A number is larger than 0.001.
pub open spec fn over_a_thousandth(x: Scalar) -> bool {
    (Scalar { bits: 0x3F50_624D_D2F1_A9FC }).below(x)
}

// ---------------------------------------------------------------------------
// The model
// ---------------------------------------------------------------------------

/// The nice value lies in `-5 ..= 19`; for a density from 1/64 up to 1 it is
/// `-5 + 24 * (1 - density)`, rounded. Densities stand times 2 to the 58th.
pub proof fn law_norm_to_nice(norm: Scalar, r: i32)
    requires
        call_ensures(model::norm_to_nice, (norm,), r),
    ensures
        -5 <= r <= 19,
        norm.nan() || norm.rank() >= 0x3FF0_0000_0000_0000 ==> r == -5,
        !norm.nan() && norm.rank() <= 0x3F90_0000_0000_0000 ==> r == 19,
        0x3F90_0000_0000_0000 <= norm.bits < 0x3FF0_0000_0000_0000 ==> {
            let unit = 0x400_0000_0000_0000int;
            let exact = 24 * (unit - model::scaled(norm.bits));
            &&& (r + 5) * unit - exact <= unit / 2 + 24 * 64
            &&& exact - (r + 5) * unit <= unit / 2 + 24 * 64
        },
{
    model::law_nice_range(norm);
    model::law_steps_decide(norm, 24);
    if 0x3F90_0000_0000_0000 <= norm.bits < 0x3FF0_0000_0000_0000 {
        model::law_nice_is_the_formula(norm);
    }
}

/// Of two densities the higher one never gets the larger nice value.
pub proof fn law_denser_is_never_worse(a: Scalar, b: Scalar, r: i32, s: i32)
    requires
        call_ensures(model::norm_to_nice, (a,), r),
        call_ensures(model::norm_to_nice, (b,), s),
        !b.below(a),
        !a.nan() && !b.nan(),
    ensures
        s <= r,
{
    model::law_denser_is_served_first(a, b);
}

/// The spread goes to what was worked out, but no lower than 0.15 and no higher than
/// 0.40.
pub proof fn law_gauss_update(g: &mut Gauss, raw: Scalar)
    requires
        call_ensures(Gauss::update, (g, raw), ()),
    ensures
        ({
            let (lo, hi) = (
                Scalar { bits: 0x3FC3_3333_3333_3333 },
                Scalar { bits: 0x3FD9_9999_9999_999A },
            );
            &&& raw.below(lo) ==> final(g).val() == lo
            &&& hi.below(raw) ==> final(g).val() == hi
            &&& !raw.below(lo) && !hi.below(raw) ==> final(g).val() == raw
        }),
{
}

/// The spread starts at 0.35.
pub proof fn law_gauss_new(g: Gauss)
    requires
        call_ensures(Gauss::new, (), g),
    ensures
        g.val().bits == 0x3FD6_6666_6666_6666,
{
}

// ---------------------------------------------------------------------------
// A scan
// ---------------------------------------------------------------------------

/// Every entry that counts gives a process, in their order.
pub proof fn law_scan_proc_once(files: &Vec<ProcFiles>, r: Vec<ProcEntry>)
    requires
        call_ensures(scan::scan_proc_once, (files,), r),
    ensures
        r@.map_values(
            |e: ProcEntry|
                EntryFields {
                    pid: e.pid,
                    comm: e.comm@,
                    uid: e.uid,
                    cpu_ticks: e.cpu_ticks,
                    syscr: e.syscr,
                    gpu_ema: e.gpu_ema,
                },
        ) == files@.filter(
            |f: ProcFiles|
                f.name@.len() > 0 && (forall|k: int|
                    0 <= k < f.name@.len() ==> '0' <= #[trigger] f.name@[k] <= '9')
                    && text::decimal(f.name@) <= 2147483647 && f.comm is Some,
        ).map_values(|f: ProcFiles| f.entry()),
{
    scan::law_entries_that_count(files@);
    lemma_same_filter(files@);
    assert(r@.map_values(
        |e: ProcEntry|
            EntryFields {
                pid: e.pid,
                comm: e.comm@,
                uid: e.uid,
                cpu_ticks: e.cpu_ticks,
                syscr: e.syscr,
                gpu_ema: e.gpu_ema,
            },
    ) =~= scan::entry_fields(r@));
}

proof fn lemma_same_filter(files: Seq<ProcFiles>)
    ensures
        files.filter(|f: ProcFiles| f.counts()) == files.filter(
            |f: ProcFiles|
                f.name@.len() > 0 && (forall|k: int|
                    0 <= k < f.name@.len() ==> '0' <= #[trigger] f.name@[k] <= '9')
                    && text::decimal(f.name@) <= 2147483647 && f.comm is Some,
        ),
    decreases files.len(),
{
    reveal(Seq::filter);
    if files.len() > 0 {
        lemma_same_filter(files.drop_last());
        scan::law_entries_that_count(files);
        assert(files[files.len() - 1] == files.last());
    }
}

// ---------------------------------------------------------------------------
// Rounds
// ---------------------------------------------------------------------------

/// What is due when.
pub proof fn law_due(cycle: u64, r: Due)
    requires
        call_ensures(sched::due, (cycle,), r),
    ensures
        r.status <==> cycle % 10 == 0,
        r.save <==> cycle % 75 == 0 && cycle != 0,
        r.clean <==> cycle % 150 == 0 && cycle != 0,
{
}

/// The timer goes off after the period for the first time, and then every period.
pub proof fn law_timer_spec(ms: u64, r: [i64; 4])
    requires
        call_ensures(sched::timer_spec, (ms,), r),
        ms <= 1000,
    ensures
        r@.len() == 4,
        r@[0] == 0 && r@[2] == 0,
        r@[1] == ms * 1_000_000 && r@[3] == ms * 1_000_000,
{
}

/// A name has a share if and only if a record of it holds one larger than 0.001,
/// and it is that of the last such record; all such records are counted.
pub proof fn law_load_learned(recs: &Vec<Record>, r: (Learned, u32), c: Seq<char>)
    requires
        call_ensures(sched::load_learned, (recs,), r),
    ensures
        r.1 == recs@.filter(|x: Record| x.cpu is Some && over_a_thousandth(x.cpu->0)).len(),
        r.0@.contains_key(c) <==> exists|i: int|
            0 <= i < recs@.len() && (#[trigger] recs@[i]).comm@ == c && recs@[i].cpu is Some
                && over_a_thousandth(recs@[i].cpu->0),
        forall|i: int|
            0 <= i < recs@.len() && (#[trigger] recs@[i]).comm@ == c && recs@[i].cpu is Some
                && over_a_thousandth(recs@[i].cpu->0) && (forall|j: int|
                i < j < recs@.len() && (#[trigger] recs@[j]).comm@ == c ==> recs@[j].cpu is None
                    || !over_a_thousandth(recs@[j].cpu->0)) ==> r.0@[c] == recs@[i].cpu->0,
{
    sched::law_last_record_counts(recs@, c);
    let p = |x: Record| x.cpu is Some && (Scalar { bits: 0x3F50_624D_D2F1_A9FC }).below(x.cpu->0);
    let q = |x: Record| x.cpu is Some && over_a_thousandth(x.cpu->0);
    assert(p =~= q);
    if exists|i: int|
        0 <= i < recs@.len() && (#[trigger] recs@[i]).comm@ == c && recs@[i].cpu is Some
            && over_a_thousandth(recs@[i].cpu->0) {
        let i = choose|i: int|
            0 <= i < recs@.len() && (#[trigger] recs@[i]).comm@ == c && recs@[i].cpu is Some
                && over_a_thousandth(recs@[i].cpu->0);
        assert((Scalar { bits: 0x3F50_624D_D2F1_A9FC }).below(recs@[i].cpu->0));
    }
    assert forall|i: int|
        0 <= i < recs@.len() && (#[trigger] recs@[i]).comm@ == c && recs@[i].cpu is Some
            && over_a_thousandth(recs@[i].cpu->0) && (forall|j: int|
            i < j < recs@.len() && (#[trigger] recs@[j]).comm@ == c ==> recs@[j].cpu is None
                || !over_a_thousandth(recs@[j].cpu->0)) implies r.0@[c] == recs@[i].cpu->0 by {
        assert forall|j: int| i < j < recs@.len() && (#[trigger] recs@[j]).comm@ == c implies recs@[j].cpu
            is None || !(Scalar { bits: 0x3F50_624D_D2F1_A9FC }).below(recs@[j].cpu->0) by {
            assert(recs@[j].cpu is None || !over_a_thousandth(recs@[j].cpu->0));
        }
    }
}

/// The share that was learned of a name, or zero.
pub proof fn law_share(l: &Learned, comm: &str, r: Scalar)
    requires
        call_ensures(Learned::share, (l, comm), r),
    ensures
        l@.contains_key(comm@) ==> r == l@[comm@],
        !l@.contains_key(comm@) ==> r.bits == 0,
{
}

// ---------------------------------------------------------------------------
// A process
// ---------------------------------------------------------------------------

/// A process that was just found counts as looked at 800 milliseconds ago.
pub proof fn law_new(
    comm: String,
    ticks: u64,
    syscr: u64,
    learned_cpu: Scalar,
    now: u64,
    r: ProcState,
)
    requires
        call_ensures(ProcState::new, (comm, ticks, syscr, learned_cpu, now), r),
        now >= 800_000_000,
    ensures
        r.comm@ == comm@,
        r.last_ticks == ticks,
        r.last_syscr == syscr,
        r.last_ts == now - 800_000_000,
        r.smooth_cpu == learned_cpu,
        r.current_nice == 0,
{
}

/// What a process did is what its counters went on by, unless they fell, in the time
/// that went by, but in no less than a tenth of a second.
pub proof fn law_measure(s: &ProcState, ticks: u64, syscr: u64, now: u64, d: Delta)
    requires
        call_ensures(ProcState::measure, (s, ticks, syscr, now), d),
    ensures
        ticks >= s.last_ticks ==> s.last_ticks + d.ticks == ticks,
        ticks < s.last_ticks ==> d.ticks == 0,
        syscr >= s.last_syscr ==> s.last_syscr + d.syscr == syscr,
        syscr < s.last_syscr ==> d.syscr == 0,
        now >= s.last_ts + 100_000_000 ==> s.last_ts + d.elapsed_ns == now,
        now < s.last_ts + 100_000_000 ==> d.elapsed_ns == 100_000_000,
{
}

/// A look replaces the counters, the time and the share, and nothing else.
pub proof fn law_update(s: &mut ProcState, ticks: u64, syscr: u64, smooth_cpu: Scalar, now: u64)
    requires
        call_ensures(ProcState::update, (s, ticks, syscr, smooth_cpu, now), ()),
    ensures
        final(s).last_ticks == ticks,
        final(s).last_syscr == syscr,
        final(s).last_ts == now,
        final(s).smooth_cpu == smooth_cpu,
        final(s).comm@ == old(s).comm@,
        final(s).current_nice == old(s).current_nice,
{
}

// ---------------------------------------------------------------------------
// All processes
// ---------------------------------------------------------------------------

/// A scheduler starts with nobody known.
pub proof fn law_scheduler_new(my_pid: Pid, r: Scheduler, pid: Pid)
    requires
        call_ensures(Scheduler::new, (my_pid,), r),
    ensures
        !r@.contains_key(pid),
        r.own() == my_pid,
{
}

/// A scan forgets nobody and changes nobody who is known. Whoever it finds is known
/// then, but for the scheduler itself; a new one as its first entry tells.
pub proof fn law_enroll(
    s: &mut Scheduler,
    entries: &Vec<ProcEntry>,
    learned: &Learned,
    now: u64,
    pid: Pid,
)
    requires
        call_ensures(Scheduler::enroll, (s, entries, learned, now), ()),
        now >= 800_000_000,
    ensures
        final(s).own() == old(s).own(),
        final(s)@.contains_key(pid) <==> old(s)@.contains_key(pid) || (pid != old(s).own()
            && exists|i: int| 0 <= i < entries@.len() && (#[trigger] entries@[i]).pid == pid),
        old(s)@.contains_key(pid) ==> final(s)@[pid] == old(s)@[pid],
        forall|i: int|
            0 <= i < entries@.len() && (#[trigger] entries@[i]).pid == pid && pid != old(s).own()
                && !old(s)@.contains_key(pid) && (forall|j: int|
                0 <= j < i ==> (#[trigger] entries@[j]).pid != pid) ==> {
                let (e, p) = (entries@[i], final(s)@[pid]);
                &&& p.comm@ == e.comm@
                &&& p.last_ticks == e.cpu_ticks
                &&& p.last_syscr == e.syscr
                &&& p.last_ts == now - 800_000_000
                &&& p.current_nice == 0
                &&& learned@.contains_key(e.comm@) ==> p.smooth_cpu == learned@[e.comm@]
                &&& !learned@.contains_key(e.comm@) ==> p.smooth_cpu.bits == 0
            },
{
    let (known, me) = (old(s)@, old(s).own());
    sched::law_enrolling_only_adds(known, entries@, me, *learned, now, pid);
    assert forall|i: int|
        0 <= i < entries@.len() && (#[trigger] entries@[i]).pid == pid && pid != me
            && !known.contains_key(pid) && (forall|j: int|
            0 <= j < i ==> (#[trigger] entries@[j]).pid != pid) implies {
        let (e, p) = (entries@[i], final(s)@[pid]);
        &&& p.comm@ == e.comm@
        &&& p.last_ticks == e.cpu_ticks
        &&& p.last_syscr == e.syscr
        &&& p.last_ts == now - 800_000_000
        &&& p.current_nice == 0
        &&& learned@.contains_key(e.comm@) ==> p.smooth_cpu == learned@[e.comm@]
        &&& !learned@.contains_key(e.comm@) ==> p.smooth_cpu.bits == 0
    } by {
        sched::law_first_entry_counts(known, entries@, me, *learned, now, i);
        sched::law_found_processes(entries@[i], *learned, now);
    }
}

/// What a known process did since the last look; of others nothing is told.
pub proof fn law_scheduler_measure(s: &Scheduler, e: &ProcEntry, now: u64, r: Option<Delta>)
    requires
        call_ensures(Scheduler::measure, (s, e, now), r),
    ensures
        r is Some <==> s@.contains_key(e.pid),
        r matches Some(d) ==> {
            let p = s@[e.pid];
            &&& e.cpu_ticks >= p.last_ticks ==> p.last_ticks + d.ticks == e.cpu_ticks
            &&& e.cpu_ticks < p.last_ticks ==> d.ticks == 0
            &&& e.syscr >= p.last_syscr ==> p.last_syscr + d.syscr == e.syscr
            &&& e.syscr < p.last_syscr ==> d.syscr == 0
            &&& now >= p.last_ts + 100_000_000 ==> p.last_ts + d.elapsed_ns == now
            &&& now < p.last_ts + 100_000_000 ==> d.elapsed_ns == 100_000_000
        },
{
}

/// A look at a known process is taken in by that process alone, and changes its
/// counters, its time and its share.
pub proof fn law_scheduler_update(
    s: &mut Scheduler,
    e: &ProcEntry,
    smooth_cpu: Scalar,
    now: u64,
    pid: Pid,
)
    requires
        call_ensures(Scheduler::update, (s, e, smooth_cpu, now), ()),
    ensures
        final(s).own() == old(s).own(),
        final(s)@.contains_key(pid) <==> old(s)@.contains_key(pid),
        pid != e.pid && old(s)@.contains_key(pid) ==> final(s)@[pid] == old(s)@[pid],
        old(s)@.contains_key(e.pid) ==> {
            let (was, p) = (old(s)@[e.pid], final(s)@[e.pid]);
            &&& p.comm == was.comm
            &&& p.current_nice == was.current_nice
            &&& p.last_ticks == e.cpu_ticks
            &&& p.last_syscr == e.syscr
            &&& p.last_ts == now
            &&& p.smooth_cpu == smooth_cpu
        },
{
}

/// A known process has the nice value of its density from then on, whatever it had,
/// and nobody else is touched; a value comes back if and only if it is another one
/// than before.
pub proof fn law_decide(s: &mut Scheduler, pid: Pid, norm: Scalar, r: Option<i32>, other: Pid)
    requires
        call_ensures(Scheduler::decide, (s, pid, norm), r),
    ensures
        final(s).own() == old(s).own(),
        final(s)@.contains_key(other) <==> old(s)@.contains_key(other),
        other != pid && old(s)@.contains_key(other) ==> final(s)@[other] == old(s)@[other],
        old(s)@.contains_key(pid) ==> {
            let (was, p) = (old(s)@[pid], final(s)@[pid]);
            &&& p.current_nice == model::nice_of(norm)
            &&& p == (ProcState { current_nice: p.current_nice, ..was })
            &&& r is Some <==> was.current_nice != p.current_nice
            &&& r is Some ==> r->0 == p.current_nice
        },
        !old(s)@.contains_key(pid) ==> r is None,
{
    sched::law_settling_sets_the_value(old(s)@, pid, norm);
    sched::law_settling_touches_one(old(s)@, pid, norm, other);
    assert(final(s)@.dom().contains(other) <==> old(s)@.dom().contains(other));
}

/// After a round every known process with a metric has the nice value of the density
/// in its last metric, and nothing else of it has changed; who has no metric has not
/// changed.
pub proof fn law_assign(
    s: &mut Scheduler,
    metrics: &Vec<Metric>,
    norms: &Vec<Scalar>,
    r: Vec<(Pid, i32)>,
    pid: Pid,
)
    requires
        call_ensures(Scheduler::assign, (s, metrics, norms), r),
        norms@.len() == metrics@.len(),
    ensures
        final(s).own() == old(s).own(),
        final(s)@.contains_key(pid) <==> old(s)@.contains_key(pid),
        old(s)@.contains_key(pid) ==> final(s)@[pid] == (ProcState {
            current_nice: final(s)@[pid].current_nice,
            ..old(s)@[pid]
        }),
        forall|i: int|
            0 <= i < metrics@.len() && (#[trigger] metrics@[i]).pid == pid && old(s)@.contains_key(
                pid,
            ) && (forall|j: int| i < j < metrics@.len() ==> (#[trigger] metrics@[j]).pid != pid)
                ==> final(s)@[pid].current_nice == model::nice_of(norms@[i]),
        old(s)@.contains_key(pid) && (forall|i: int|
            0 <= i < metrics@.len() ==> (#[trigger] metrics@[i]).pid != pid) ==> final(s)@[pid]
            == old(s)@[pid],
{
    let (known, now) = (old(s)@, final(s)@);
    sched::law_round_changes_nice_values_only(known, metrics@, norms@, pid);
    assert(now.dom().contains(pid) <==> known.dom().contains(pid));
    assert forall|i: int|
        0 <= i < metrics@.len() && (#[trigger] metrics@[i]).pid == pid && known.contains_key(pid)
            && (forall|j: int|
            i < j < metrics@.len() ==> (#[trigger] metrics@[j]).pid != pid) implies now[pid].current_nice
        == model::nice_of(norms@[i]) by {
        sched::law_round_settles_everybody(known, metrics@, norms@, i);
    }
}

/// In a round with one metric for each process, the values to be set are those that
/// differ, in the order of the metrics.
pub proof fn law_assign_tells_what_differs(
    s: &mut Scheduler,
    metrics: &Vec<Metric>,
    norms: &Vec<Scalar>,
    r: Vec<(Pid, i32)>,
)
    requires
        call_ensures(Scheduler::assign, (s, metrics, norms), r),
        norms@.len() == metrics@.len(),
        forall|i: int, j: int|
            0 <= i < j < metrics@.len() ==> (#[trigger] metrics@[i]).pid != (
            #[trigger] metrics@[j]).pid,
    ensures
        r@ == Seq::new(metrics@.len(), |i: int| (metrics@[i].pid, norms@[i])).filter_map(
            |p: (Pid, Scalar)|
                if old(s)@.contains_key(p.0) && old(s)@[p.0].current_nice != model::nice_of(p.1) {
                    Some((p.0, model::nice_of(p.1) as i32))
                } else {
                    None
                },
        ),
{
    sched::law_round_tells_what_differs(old(s)@, metrics@, norms@);
}

/// Who has ended is forgotten and told of, once each; who lives stays known, as it
/// was.
pub proof fn law_sweep(s: &mut Scheduler, alive: &Vec<Pid>, r: Vec<Pid>, pid: Pid)
    requires
        call_ensures(Scheduler::sweep, (s, alive), r),
    ensures
        final(s).own() == old(s).own(),
        final(s)@.contains_key(pid) <==> old(s)@.contains_key(pid) && alive@.contains(pid),
        final(s)@.contains_key(pid) ==> final(s)@[pid] == old(s)@[pid],
        r@.contains(pid) <==> old(s)@.contains_key(pid) && !alive@.contains(pid),
        r@.no_duplicates(),
{
    assert(r@.to_set().contains(pid) <==> r@.contains(pid));
    assert(alive@.to_set().contains(pid) <==> alive@.contains(pid));
}

/// Everybody who is known is told of once.
pub proof fn law_pids(s: &Scheduler, r: Vec<Pid>, pid: Pid)
    requires
        call_ensures(Scheduler::pids, (s,), r),
    ensures
        r@.contains(pid) <==> s@.contains_key(pid),
        r@.no_duplicates(),
{
    assert(r@.to_set().contains(pid) <==> r@.contains(pid));
}

/// A shutdown takes the nice value of everybody known back, once each, if it was
/// asked for.
pub proof fn law_shutdown_requested(flag_up: bool, s: &Scheduler, r: Option<Vec<Pid>>, pid: Pid)
    requires
        call_ensures(sched::shutdown_requested, (flag_up, s), r),
    ensures
        r is Some <==> flag_up,
        r is Some ==> (r->0@.contains(pid) <==> s@.contains_key(pid)) && r->0@.no_duplicates(),
{
    if r is Some {
        assert(r->0@.to_set().contains(pid) <==> r->0@.contains(pid));
    }
}

/// Who is known, and as what, is looked up by the number.
pub proof fn law_get(s: &Scheduler, pid: Pid, r: Option<&ProcState>)
    requires
        call_ensures(Scheduler::get, (s, pid), r),
    ensures
        r is Some <==> s@.contains_key(pid),
        r is Some ==> *r->0 == s@[pid],
{
}

/// What is saved: of each name the largest share, if it is larger than 0.001, and
/// the largest of all first. A name of which some share is not a number may be left
/// out.
pub proof fn law_save_learned(s: &Scheduler, r: Vec<Peak>)
    requires
        call_ensures(Scheduler::save_learned, (s,), r),
    ensures
        forall|i: int, j: int|
            0 <= i < j < r@.len() ==> (#[trigger] r@[i]).comm@ != (#[trigger] r@[j]).comm@
                && r@[i].cpu.rank() >= r@[j].cpu.rank(),
        forall|i: int|
            0 <= i < r@.len() ==> over_a_thousandth((#[trigger] r@[i]).cpu) && exists|pid: Pid|
                #[trigger]
                s@.contains_key(pid) && s@[pid].comm@ == r@[i].comm@ && s@[pid].smooth_cpu
                    == r@[i].cpu,
        forall|i: int, pid: Pid|
            0 <= i < r@.len() && s@.contains_key(pid) && (#[trigger] s@[pid]).comm@ == r@[i].comm@
                ==> !(#[trigger] r@[i]).cpu.below(s@[pid].smooth_cpu),
        forall|pid: Pid| #[trigger]
            s@.contains_key(pid) && over_a_thousandth(s@[pid].smooth_cpu) && (forall|q: Pid|
                #[trigger]
                s@.contains_key(q) && s@[q].comm@ == s@[pid].comm@ ==> !s@[q].smooth_cpu.nan())
                ==> exists|i: int| 0 <= i < r@.len() && (#[trigger] r@[i]).comm@ == s@[pid].comm@,
{
    sched::law_saved(r@, s@);
}

/// A report tells of the four with the heaviest load, in that order, as far as they
/// are known and use at least 0.02 of the CPU or 0.05 of the GPU.
pub proof fn law_status(s: &Scheduler, metrics: &Vec<Metric>, loads: &Vec<Scalar>, r: Vec<StatusRow>)
    requires
        call_ensures(Scheduler::status, (s, metrics, loads), r),
    ensures
        exists|by: Seq<usize>| #[trigger]
            order::is_order(loads@, by) && r@ == by.take(
                if by.len() < 4 {
                    by.len() as int
                } else {
                    4
                },
            ).filter(
                |i: usize|
                    s@.contains_key(metrics@[i as int].pid) && !(metrics@[i as int].cpu_rate.below(
                        Scalar { bits: 0x3F94_7AE1_47AE_147B },
                    ) && metrics@[i as int].gpu_ema.below(Scalar { bits: 0x3FA9_9999_9999_999A })),
            ).map_values(
                |i: usize|
                    StatusRow {
                        index: i,
                        with_gpu: (Scalar { bits: 0x3FA9_9999_9999_999A }).below(
                            metrics@[i as int].gpu_ema,
                        ),
                    },
            ),
{
    let by = choose|by: Seq<usize>| #[trigger]
        order::is_order(loads@, by) && r@ == sched::shown(
            s@,
            metrics@,
            by.take(sched::top_of(by)),
        );
    sched::law_report(s@, metrics@, by);
    sched::law_report(s@, metrics@, by.take(sched::top_of(by)));
    assert(order::is_order(loads@, by));
}

/// The rate against which the others are measured is 1, or one of them if that is
/// larger, and no rate is larger than it.
pub proof fn law_max_syscr(metrics: &Vec<Metric>, r: Scalar)
    requires
        call_ensures(sched::max_syscr, (metrics,), r),
    ensures
        !r.nan(),
        !r.below(Scalar { bits: 0x3FF0_0000_0000_0000 }),
        r.bits == 0x3FF0_0000_0000_0000 || exists|i: int|
            0 <= i < metrics@.len() && (#[trigger] metrics@[i]).syscr_rate == r,
        forall|i: int|
            0 <= i < metrics@.len() ==> !r.below((#[trigger] metrics@[i]).syscr_rate),
{
}

/// Loads can be put in order if there is at most one, or all are numbers.
pub proof fn law_is_comparable(loads: &Vec<Scalar>, r: bool)
    requires
        call_ensures(sched::is_comparable, (loads,), r),
    ensures
        r <==> loads@.len() <= 1 || forall|i: int|
            0 <= i < loads@.len() ==> !(#[trigger] loads@[i]).nan(),
{
}

/// A density can be measured unless it is larger than 89478486.14583331; what is no
/// number can be.
pub proof fn law_is_measurable(norm: Scalar, r: bool)
    requires
        call_ensures(model::is_measurable, (norm,), r),
    ensures
        r <==> !(Scalar { bits: 0x4195_5555_5895_5554 }).below(norm),
{
}

/// Records can be counted as long as those with a share larger than 0.001 can.
pub proof fn law_is_countable(recs: &Vec<Record>, r: bool)
    requires
        call_ensures(sched::is_countable, (recs,), r),
    ensures
        r <==> recs@.filter(
            |x: Record|
                x.cpu is Some && (Scalar { bits: 0x3F50_624D_D2F1_A9FC }).below(x.cpu->0),
        ).len() <= 0xFFFF_FFFF,
{
    sched::law_last_record_counts(recs@, Seq::empty());
}

} // verus!
