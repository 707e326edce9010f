//! What the operations of the GPU scheduler promise, each in terms of what goes in
//! and what comes out.

use super::cycle;
use super::cycle::Due;
use super::cycle::Signal;
use super::cycle::Turn;
use super::cycle::Work;
use super::scan;
use super::scan::ProcFiles;
use super::scan::ProcScanResult;
use super::scan::UidTable;
use super::smi;
use super::smi::ComputeProc;
use super::smi::GpuMetrics;
use super::state;
use super::state::ProcState;
use super::state::Spread;
use super::state::StartDensity;
use super::state::Step;
use super::table;
use super::table::Kept;
use super::table::Record;
use super::table::Table;
use crate::class;
use crate::class::ProcClass;
use crate::order;
use crate::scalar::Position;
use crate::scalar::Scalar;
use crate::score;
use crate::text;
use vstd::prelude::*;

verus! {

/// A number is larger than 0.5.
pub open spec fn over_half(x: Scalar) -> bool {
    (Scalar { bits: 0x3FE0_0000_0000_0000 }).below(x)
}

/// A number is larger than 0.01.
pub open spec fn over_a_hundredth(x: Scalar) -> bool {
    (Scalar { bits: 0x3F84_7AE1_47AE_147B }).below(x)
}

// ---------------------------------------------------------------------------
// A process
// ---------------------------------------------------------------------------

/// An observation of a user's process replaces all its numbers; of any other
/// process it changes nothing, but takes it off the GPU.
pub proof fn law_update(s: &mut ProcState, step: &Step, now: u64)
    requires
        call_ensures(ProcState::update, (s, step, now), ()),
    ensures
        final(s).comm@ == old(s).comm@,
        final(s).uid == old(s).uid,
        class::comm_class(old(s).comm@, old(s).uid) == ProcClass::User ==> {
            &&& final(s).gpu_rate_ema == step.gpu_rate_ema
            &&& final(s).x_pos == step.x_pos
            &&& final(s).sigma == step.sigma
            &&& final(s).density == step.density
            &&& final(s).last_updated_ts == now
            &&& final(s).use_gpu <==> over_half(step.x_pos.val())
        },
        class::comm_class(old(s).comm@, old(s).uid) != ProcClass::User ==> {
            &&& final(s).gpu_rate_ema == old(s).gpu_rate_ema
            &&& final(s).x_pos == old(s).x_pos
            &&& final(s).sigma == old(s).sigma
            &&& final(s).density == old(s).density
            &&& final(s).last_updated_ts == old(s).last_updated_ts
            &&& !final(s).use_gpu
        },
{
}

/// A process that was just seen has no share and is not on the GPU.
pub proof fn law_new(comm: &str, uid: u32, start: &StartDensity, now: u64, r: ProcState)
    requires
        call_ensures(ProcState::new, (comm, uid, start, now), r),
    ensures
        r.comm@ == comm@,
        r.uid == uid,
        r.gpu_rate_ema.bits == 0,
        !r.use_gpu,
        r.last_updated_ts == now,
        r.sigma.val().bits == 0x3FD4_CCCC_CCCC_CCCD,
        class::comm_class(comm@, uid) == ProcClass::Kernel ==> r.x_pos.val().bits
            == 0xBFBE_B851_EB85_1EB8 && r.density == start.kernel,
        class::comm_class(comm@, uid) == ProcClass::System ==> r.x_pos.val().bits
            == 0xBFA4_7AE1_47AE_147C && r.density == start.system,
        class::comm_class(comm@, uid) == ProcClass::User ==> r.x_pos.val().bits
            == 0x3FB4_7AE1_47AE_147C && r.density == start.user,
{
}

/// A process whose share was learned has the share and what follows from it.
pub proof fn law_new_with_ema(
    comm: &str,
    uid: u32,
    ema: Scalar,
    x_pos: Position,
    density: Scalar,
    now: u64,
    r: ProcState,
)
    requires
        call_ensures(ProcState::new_with_ema, (comm, uid, ema, x_pos, density, now), r),
    ensures
        r.comm@ == comm@,
        r.uid == uid,
        r.gpu_rate_ema == ema,
        r.x_pos == x_pos,
        r.density == density,
        r.last_updated_ts == now,
        r.sigma.val().bits == 0x3FD4_CCCC_CCCC_CCCD,
        r.use_gpu <==> over_half(x_pos.val()),
{
}

/// The score of a process goes under its file name, and is six lines.
pub proof fn law_write_score(
    comm: &str,
    s: &ProcState,
    x: &str,
    density: &str,
    gpu_ema: &str,
    sigma: &str,
    r: (String, String),
)
    requires
        call_ensures(state::write_score, (comm, s, x, density, gpu_ema, sigma), r),
    ensures
        r.0@ == "/run/ntvidia/scores"@ + seq!['/'] + score::sanitized(comm@),
        r.1@ == text::ended(
            seq![
                if s.use_gpu {
                    "use_gpu="@ + seq!['1']
                } else {
                    "use_gpu="@ + seq!['0']
                },
                "x="@ + x@,
                "density="@ + density@,
                "gpu_ema="@ + gpu_ema@,
                "sigma="@ + sigma@,
                "ts="@ + text::digits_of(s.last_updated_ts as nat),
            ],
        ),
{
    score::law_score_is_six_lines(
        s.use_gpu,
        x@,
        density@,
        gpu_ema@,
        sigma@,
        s.last_updated_ts as nat,
    );
}

// ---------------------------------------------------------------------------
// A scan
// ---------------------------------------------------------------------------

/// Of several processes of one name the largest owner stays, and no other name is
/// touched.
pub proof fn law_note(t: &mut UidTable, name: &str, uid: u32, c: Seq<char>)
    requires
        call_ensures(UidTable::note, (t, name, uid), ()),
    ensures
        final(t)@.contains_key(name@),
        final(t)@[name@] >= uid,
        old(t)@.contains_key(name@) ==> final(t)@[name@] >= old(t)@[name@],
        final(t)@[name@] == uid || (old(t)@.contains_key(name@) && final(t)@[name@]
            == old(t)@[name@]),
        c != name@ ==> (final(t)@.contains_key(c) <==> old(t)@.contains_key(c)),
        c != name@ && old(t)@.contains_key(c) ==> final(t)@[c] == old(t)@[c],
{
}

/// A scan tells of exactly the names that processes have, and of exactly those that
/// have a GPU device open, each with the largest owner among them.
pub proof fn law_scan_proc(files: &Vec<ProcFiles>, r: ProcScanResult, c: Seq<char>)
    requires
        call_ensures(scan::scan_proc, (files,), r),
    ensures
        r.all_comms@.contains_key(c) <==> exists|i: int|
            0 <= i < files@.len() && scan::is_process_of(#[trigger] files@[i], c),
        r.all_comms@.contains_key(c) ==> exists|i: int|
            0 <= i < files@.len() && scan::is_process_of(#[trigger] files@[i], c)
                && files@[i].owner() == r.all_comms@[c],
        forall|i: int|
            0 <= i < files@.len() && scan::is_process_of(#[trigger] files@[i], c)
                ==> files@[i].owner() <= r.all_comms@[c],
        r.nvidia_users@.contains_key(c) <==> exists|i: int|
            0 <= i < files@.len() && scan::is_process_of(#[trigger] files@[i], c)
                && scan::opens_a_gpu(files@[i]),
        r.nvidia_users@.contains_key(c) ==> exists|i: int|
            0 <= i < files@.len() && scan::is_process_of(#[trigger] files@[i], c)
                && scan::opens_a_gpu(files@[i]) && files@[i].owner() == r.nvidia_users@[c],
        forall|i: int|
            0 <= i < files@.len() && scan::is_process_of(#[trigger] files@[i], c)
                && scan::opens_a_gpu(files@[i]) ==> files@[i].owner() <= r.nvidia_users@[c],
{
    scan::law_scan_tells_all_names(r.all_comms@, files@, c);
    scan::law_scan_tells_gpu_names(r.nvidia_users@, files@, c);
}

/// At least one name counts.
pub proof fn law_proc_count(s: &ProcScanResult, n: usize)
    requires
        call_ensures(ProcScanResult::proc_count, (s,), n),
    ensures
        n >= 1,
        s.all_comms@.dom().len() >= 1 ==> n == s.all_comms@.dom().len(),
        s.all_comms@.dom().len() == 0 ==> n == 1,
{
}

// ---------------------------------------------------------------------------
// What nvidia-smi prints
// ---------------------------------------------------------------------------

/// Every line that tells of a process gives it, in their order.
pub proof fn law_compute_procs(out: &str, r: Vec<(u32, String)>)
    requires
        call_ensures(smi::compute_procs, (out,), r),
    ensures
        r@.map_values(|p: (u32, String)| ComputeProc { pid: p.0, name: p.1@ }) == text::lines(
            out@,
        ).filter_map(|l: Seq<char>| smi::compute_proc_in(l)),
{
    smi::law_processes_come_line_by_line(text::lines(out@));
    assert(r@.map_values(|p: (u32, String)| ComputeProc { pid: p.0, name: p.1@ })
        =~= smi::compute_views(r@));
}

/// A line of a number and the path of a file gives a process of that number that
/// goes by the name of the file, whatever the directory is called.
pub proof fn law_compute_proc(out: &str, pid: u32, d: Seq<char>, n: Seq<char>, r: Vec<(u32, String)>)
    requires
        call_ensures(smi::compute_procs, (out,), r),
        out@ == text::digits_of(pid as nat) + seq![',', ' '] + (d + seq!['/'] + n) + seq!['\n'],
        n.len() > 0,
        !n.contains('/'),
        n != seq!['.'],
        n != seq!['.', '.'],
        !n.contains('\n'),
        !d.contains('\n'),
        !text::is_white(n.last()),
        d.len() > 0 ==> !text::is_white(d[0]),
    ensures
        r@.len() == 1,
        r@[0].0 == pid,
        r@[0].1@ == n,
{
    let digits = text::digits_of(pid as nat);
    let line = digits + seq![',', ' '] + (d + seq!['/'] + n);
    let none = Seq::<char>::empty();
    text::law_number_survives(pid as nat, u32::MAX as nat);
    assert(!line.contains('\n')) by {
        if line.contains('\n') {
            let i = choose|i: int| 0 <= i < line.len() && line[i] == '\n';
            let k = digits.len() + 2;
            if i < digits.len() {
                assert(text::is_digit(digits[i]));
            } else if i >= k && i < k + d.len() {
                assert(d[i - k] == '\n');
            } else if i > k + d.len() {
                assert(n[i - k - d.len() - 1] == '\n');
            }
        }
    }
    assert(line.last() == n.last());
    assert(text::is_white('\r'));
    assert(line + seq!['\n'] + none =~= out@);
    text::law_lines_end_in_feeds(line, none);
    text::law_lines_end_in_feeds(none, none);
    assert(text::lines(out@) =~= seq![line]);
    smi::law_process_goes_by_its_file(pid, d, n);
    let ls = seq![line];
    assert(ls.drop_last() =~= Seq::<Seq<char>>::empty());
    assert(smi::compute_procs_in(ls.drop_last()) =~= Seq::<ComputeProc>::empty());
    assert(smi::compute_procs_in(ls) =~= seq![ComputeProc { pid, name: n }]);
    let views = smi::compute_views(r@);
    assert(views.len() == 1);
    assert(views[0] == (ComputeProc { pid: r@[0].0, name: r@[0].1@ }));
}

/// The three numbers stand between the commas of the line; with fewer than three
/// fields there are none.
pub proof fn law_smi_fields(
    out: &str,
    a: Seq<char>,
    x: Seq<char>,
    y: Seq<char>,
    z: Seq<char>,
    b: Seq<char>,
    r: Option<(String, String, String)>,
)
    requires
        call_ensures(smi::smi_fields, (out,), r),
        text::blank(a),
        text::blank(b),
        !x.contains(','),
        !y.contains(','),
        !z.contains(','),
        x.len() > 0 && !text::is_white(x[0]),
        z.len() > 0 ==> !text::is_white(z.last()),
        y.len() > 0 && !text::is_white(y.last()),
    ensures
        out@ == a + (x + seq![','] + (y + seq![','] + z)) + b ==> {
            &&& r matches Some(v)
            &&& v.0@ == text::trim(x)
            &&& v.1@ == text::trim(y)
            &&& v.2@ == text::trim(z)
        },
        out@ == a + (x + seq![','] + y) + b ==> r is None,
{
    smi::law_load_stands_between_commas(a, x, y, z, b);
}

/// There is an answer if and only if all was answered, and it holds what was.
pub proof fn law_query_nvidia_smi(
    util: Option<Scalar>,
    used: Option<Scalar>,
    total: Option<Scalar>,
    apps: Option<&str>,
    r: Option<GpuMetrics>,
)
    requires
        call_ensures(smi::query_nvidia_smi, (util, used, total, apps), r),
    ensures
        r is Some <==> util is Some && used is Some && total is Some && apps is Some,
        r is Some ==> {
            &&& r->0.util_pct == util->0
            &&& r->0.mem_used_mib == used->0
            &&& r->0.mem_total_mib == total->0
            &&& r->0.compute_procs@.map_values(
                |p: (u32, String)| ComputeProc { pid: p.0, name: p.1@ },
            ) == text::lines(apps->0@).filter_map(|l: Seq<char>| smi::compute_proc_in(l))
        },
{
    if r is Some {
        smi::law_processes_come_line_by_line(text::lines(apps->0@));
        assert(r->0.compute_procs@.map_values(
            |p: (u32, String)| ComputeProc { pid: p.0, name: p.1@ },
        ) =~= smi::compute_views(r->0.compute_procs@));
    }
}

// ---------------------------------------------------------------------------
// The table
// ---------------------------------------------------------------------------

/// An observation is taken in by the name it is of, if that is known, and by nobody
/// else; it is told whether that moved the name on or off the GPU.
pub proof fn law_observe(
    t: &mut Table,
    name: &str,
    step: &Step,
    now: u64,
    moved: bool,
    c: Seq<char>,
)
    requires
        call_ensures(Table::observe, (t, name, step, now), moved),
    ensures
        final(t)@.contains_key(c) <==> old(t)@.contains_key(c),
        c != name@ && old(t)@.contains_key(c) ==> final(t)@[c] == old(t)@[c],
        !old(t)@.contains_key(name@) ==> !moved,
        old(t)@.contains_key(name@) ==> {
            let (was, s) = (old(t)@[name@], final(t)@[name@]);
            &&& s.comm@ == was.comm@
            &&& s.uid == was.uid
            &&& moved <==> s.use_gpu != was.use_gpu
            &&& class::comm_class(was.comm@, was.uid) == ProcClass::User ==> {
                &&& s.gpu_rate_ema == step.gpu_rate_ema
                &&& s.x_pos == step.x_pos
                &&& s.sigma == step.sigma
                &&& s.density == step.density
                &&& s.last_updated_ts == now
                &&& s.use_gpu <==> over_half(step.x_pos.val())
            }
            &&& class::comm_class(was.comm@, was.uid) != ProcClass::User ==> {
                &&& s.gpu_rate_ema == was.gpu_rate_ema
                &&& s.last_updated_ts == was.last_updated_ts
                &&& !s.use_gpu
            }
        },
{
}

/// A turn makes known whoever holds the GPU open or computes on it, and nobody
/// else; whoever holds it open takes the owner that was seen, and nothing else of
/// somebody known changes. What comes back is what is known of the name then.
pub proof fn law_begin(
    t: &mut Table,
    w: &Work,
    start: &StartDensity,
    now: u64,
    r: Option<(Scalar, Spread)>,
    c: Seq<char>,
)
    requires
        call_ensures(cycle::begin, (t, w, start, now), r),
    ensures
        c != w.comm@ ==> (final(t)@.contains_key(c) <==> old(t)@.contains_key(c)),
        c != w.comm@ && old(t)@.contains_key(c) ==> final(t)@[c] == old(t)@[c],
        final(t)@.contains_key(w.comm@) <==> old(t)@.contains_key(w.comm@) || w.signal != Signal::Idle,
        r is Some <==> final(t)@.contains_key(w.comm@),
        r matches Some(v) ==> v.0 == final(t)@[w.comm@].gpu_rate_ema && v.1
            == final(t)@[w.comm@].sigma,
        old(t)@.contains_key(w.comm@) ==> {
            let (was, s) = (old(t)@[w.comm@], final(t)@[w.comm@]);
            &&& s.uid == if w.signal == Signal::Open {
                w.uid
            } else {
                was.uid
            }
            &&& s.comm == was.comm
            &&& s.gpu_rate_ema == was.gpu_rate_ema
            &&& s.x_pos == was.x_pos
            &&& s.density == was.density
            &&& s.sigma == was.sigma
            &&& s.use_gpu == was.use_gpu
            &&& s.last_updated_ts == was.last_updated_ts
        },
        !old(t)@.contains_key(w.comm@) && w.signal != Signal::Idle ==> {
            let s = final(t)@[w.comm@];
            &&& s.comm@ == w.comm@
            &&& s.uid == w.uid
            &&& s.gpu_rate_ema.bits == 0
            &&& !s.use_gpu
            &&& s.last_updated_ts == now
        },
{
}

/// Meeting the names of a scan makes exactly these known, tells which were new, and
/// starts those with no share and off the GPU.
pub proof fn law_enroll(
    t: &mut Table,
    seen: &UidTable,
    start: &StartDensity,
    now: u64,
    added: Vec<String>,
    c: Seq<char>,
)
    requires
        call_ensures(Table::enroll, (t, seen, start, now), added),
    ensures
        final(t)@.contains_key(c) <==> old(t)@.contains_key(c) || seen@.contains_key(c),
        old(t)@.contains_key(c) ==> final(t)@[c] == old(t)@[c],
        seen@.contains_key(c) && !old(t)@.contains_key(c) ==> {
            &&& final(t)@[c].comm@ == c
            &&& final(t)@[c].uid == seen@[c]
            &&& final(t)@[c].gpu_rate_ema.bits == 0
            &&& !final(t)@[c].use_gpu
            &&& final(t)@[c].last_updated_ts == now
        },
        (exists|i: int| 0 <= i < added@.len() && (#[trigger] added@[i])@ == c)
            <==> seen@.contains_key(c) && !old(t)@.contains_key(c),
        forall|i: int, j: int|
            0 <= i < j < added@.len() ==> (#[trigger] added@[i])@ != (#[trigger] added@[j])@,
{
    let names = table::string_views(added@);
    if exists|i: int| 0 <= i < added@.len() && (#[trigger] added@[i])@ == c {
        let i = choose|i: int| 0 <= i < added@.len() && (#[trigger] added@[i])@ == c;
        assert(names[i] == c);
        assert(names.contains(c));
    }
    if names.contains(c) {
        let i = choose|i: int| 0 <= i < names.len() && names[i] == c;
        assert(added@[i]@ == c);
    }
    assert forall|i: int, j: int| 0 <= i < j < added@.len() implies (#[trigger] added@[i])@ != (
    #[trigger] added@[j])@ by {
        assert(names[i] != names[j]);
    }
}

/// Taking over records leaves whoever is known as it is. A new name is taken over
/// from the first of its records with a share larger than 0.01. All such records
/// are counted.
pub proof fn law_load_learned(t: &mut Table, recs: &Vec<Record>, now: u64, loaded: u32, i: int)
    requires
        call_ensures(Table::load_learned, (t, recs, now), loaded),
        0 <= i < recs@.len(),
        recs@[i].ema is Some,
        over_a_hundredth(recs@[i].ema->0),
        forall|j: int|
            0 <= j < i && (#[trigger] recs@[j]).comm@ == recs@[i].comm@ ==> recs@[j].ema is None
                || !over_a_hundredth(recs@[j].ema->0),
    ensures
        loaded == recs@.filter(|r: Record| r.ema is Some && over_a_hundredth(r.ema->0)).len(),
        final(t)@.contains_key(recs@[i].comm@),
        old(t)@.contains_key(recs@[i].comm@) ==> final(t)@[recs@[i].comm@]
            == old(t)@[recs@[i].comm@],
        !old(t)@.contains_key(recs@[i].comm@) ==> {
            let s = final(t)@[recs@[i].comm@];
            &&& s.comm@ == recs@[i].comm@
            &&& s.uid == recs@[i].uid
            &&& s.gpu_rate_ema == recs@[i].ema->0
            &&& s.x_pos == recs@[i].x_pos
            &&& s.density == recs@[i].density
            &&& s.last_updated_ts == now
            &&& s.use_gpu <==> over_half(s.x_pos.val())
        },
{
    table::law_records_are_taken_over(old(t)@, final(t)@, recs@, now, i);
    table::law_counting(recs@);
    let p = |r: Record| r.ema is Some && (Scalar { bits: 0x3F84_7AE1_47AE_147B }).below(r.ema->0);
    let q = |r: Record| r.ema is Some && over_a_hundredth(r.ema->0);
    assert(p =~= q);
}

/// Taking over records makes nobody unknown, and nobody known without a record that
/// holds a share larger than 0.01.
pub proof fn law_load_learned_adds_nobody_else(
    t: &mut Table,
    recs: &Vec<Record>,
    now: u64,
    loaded: u32,
    c: Seq<char>,
)
    requires
        call_ensures(Table::load_learned, (t, recs, now), loaded),
    ensures
        old(t)@.contains_key(c) ==> final(t)@.contains_key(c) && final(t)@[c] == old(t)@[c],
        final(t)@.contains_key(c) && !old(t)@.contains_key(c) ==> exists|i: int|
            0 <= i < recs@.len() && (#[trigger] recs@[i]).comm@ == c && recs@[i].ema is Some
                && over_a_hundredth(recs@[i].ema->0),
{
    table::law_records_add_nobody_else(old(t)@, final(t)@, recs@, now, c);
}

/// Whether some rows are what is kept of a table: a row for each name with a share
/// larger than 0.01 and no others, with its share and its owner, and no share before
/// a larger one.
pub open spec fn keeps(v: Seq<Kept>, known: Map<Seq<char>, ProcState>) -> bool {
    &&& forall|i: int|
        0 <= i < v.len() ==> known.contains_key((#[trigger] v[i]).comm@)
            && known[v[i].comm@].gpu_rate_ema == v[i].ema && known[v[i].comm@].uid == v[i].uid && (
        Scalar { bits: 0x3F84_7AE1_47AE_147B }).below(v[i].ema)
    &&& forall|c: Seq<char>| #[trigger]
        known.contains_key(c) && (Scalar { bits: 0x3F84_7AE1_47AE_147B }).below(
            known[c].gpu_rate_ema,
        ) ==> exists|i: int| 0 <= i < v.len() && (#[trigger] v[i]).comm@ == c
    &&& forall|i: int, j: int|
        0 <= i < j < v.len() ==> !(#[trigger] v[i]).ema.below((#[trigger] v[j]).ema)
}

/// What is saved is what is worth keeping, the largest share first.
pub proof fn law_save_learned(t: &Table, r: Vec<Kept>)
    requires
        call_ensures(Table::save_learned, (t,), r),
        t.wf(),
    ensures
        keeps(r@, t@),
{
    let by = choose|by: Seq<usize>| #[trigger]
        order::is_order(table::kept_keys(table::kept_of(t.rows())), by) && table::kept_fields(r@)
            == table::arranged(table::kept_of(t.rows()), by);
    lemma_keeps(*t, r@, by);
}

/// A shutdown saves what is worth keeping, if it was asked for.
pub proof fn law_shutdown_requested(flag_up: bool, t: &Table, r: Option<Vec<Kept>>)
    requires
        call_ensures(cycle::shutdown_requested, (flag_up, t), r),
        t.wf(),
    ensures
        r is Some <==> flag_up,
        r is Some ==> keeps(r->0@, t@),
{
    if r is Some {
        let by = choose|by: Seq<usize>| #[trigger]
            order::is_order(table::kept_keys(table::kept_of(t.rows())), by) && table::kept_fields(
                r->0@,
            ) == table::arranged(table::kept_of(t.rows()), by);
        lemma_keeps(*t, r->0@, by);
    }
}

proof fn lemma_keeps(t: Table, v: Seq<Kept>, by: Seq<usize>)
    requires
        t.wf(),
        order::is_order(table::kept_keys(table::kept_of(t.rows())), by),
        table::kept_fields(v) == table::arranged(table::kept_of(t.rows()), by),
    ensures
        keeps(v, t@),
{
    let out = table::arranged(table::kept_of(t.rows()), by);
    assert(table::kept_fields(v).len() == v.len());
    assert forall|i: int| 0 <= i < v.len() implies t@.contains_key((#[trigger] v[i]).comm@)
        && t@[v[i].comm@].gpu_rate_ema == v[i].ema && t@[v[i].comm@].uid == v[i].uid && (
    Scalar { bits: 0x3F84_7AE1_47AE_147B }).below(v[i].ema) by {
        assert(table::kept_fields(v)[i] == v[i]@);
        table::lemma_kept_is_known(t, by, i);
    }
    assert forall|c: Seq<char>| #[trigger]
        t@.contains_key(c) && (Scalar { bits: 0x3F84_7AE1_47AE_147B }).below(
            t@[c].gpu_rate_ema,
        ) implies exists|i: int| 0 <= i < v.len() && (#[trigger] v[i]).comm@ == c by {
        table::law_kept_is_what_was_learned(t, by, c);
        let i = choose|i: int| 0 <= i < by.len() && (#[trigger] out[i]).comm == c;
        assert(table::kept_fields(v)[i] == v[i]@);
        assert(v[i].comm@ == c);
    }
    assert forall|i: int, j: int| 0 <= i < j < v.len() implies !(#[trigger] v[i]).ema.below(
        (#[trigger] v[j]).ema,
    ) by {
        assert(table::kept_fields(v)[i] == v[i]@ && table::kept_fields(v)[j] == v[j]@);
        table::law_saved_shares_fall(table::kept_of(t.rows()), by, i, j);
    }
}

/// A score file is out of date if nobody goes by its name, or if the one who does
/// has not changed for more than 300 seconds and has a share smaller than 0.01.
pub proof fn law_stale(t: &Table, name: &str, now: u64, r: bool)
    requires
        call_ensures(Table::stale, (t, name, now), r),
    ensures
        !t@.contains_key(name@) ==> r,
        t@.contains_key(name@) ==> (r <==> now > t@[name@].last_updated_ts + 300
            && t@[name@].gpu_rate_ema.below(Scalar { bits: 0x3F84_7AE1_47AE_147B })),
{
}

/// Exactly the files that are out of date are to be removed, each once.
pub proof fn law_clean_stale_scores(t: &Table, files: &Vec<String>, now: u64, r: Vec<usize>, i: int)
    requires
        call_ensures(Table::clean_stale_scores, (t, files, now), r),
        0 <= i < files@.len() <= usize::MAX,
    ensures
        r@.contains(i as usize) <==> !t@.contains_key(files@[i]@) || (now
            > t@[files@[i]@].last_updated_ts + 300 && t@[files@[i]@].gpu_rate_ema.below(
            Scalar { bits: 0x3F84_7AE1_47AE_147B },
        )),
        forall|k: int, l: int| 0 <= k < l < r@.len() ==> #[trigger] r@[k] < #[trigger] r@[l],
        forall|k: int| 0 <= k < r@.len() ==> (#[trigger] r@[k]) < files@.len(),
{
    table::law_stale_places_rise(t@, files@, now);
    table::lemma_stale_below(t@, files@, now);
    table::lemma_stale_places(t@, files@, now, i);
}

/// Who is known, and as what, is looked up by the name.
pub proof fn law_get(t: &Table, name: &str, r: Option<&ProcState>)
    requires
        call_ensures(Table::get, (t, name), r),
    ensures
        r is Some <==> t@.contains_key(name@),
        r is Some ==> *r->0 == t@[name@],
{
}

/// How many names are on the GPU.
pub proof fn law_gpu_count(t: &Table, n: usize)
    requires
        call_ensures(Table::gpu_count, (t,), n),
    ensures
        n == t.rows().filter(|s: ProcState| s.use_gpu).len(),
{
    table::law_on_the_gpu(t.rows());
}

// ---------------------------------------------------------------------------
// A round
// ---------------------------------------------------------------------------

/// What is due when.
pub proof fn law_due(cycle: u64, r: Due)
    requires
        call_ensures(cycle::due, (cycle,), r),
    ensures
        r.query <==> cycle % 5 == 0,
        r.report <==> cycle % 10 == 0,
        r.save <==> cycle % 75 == 0 && cycle != 0,
        r.clean <==> cycle % 150 == 0 && cycle != 0,
{
}

/// Every tenth round reports how many names are on the GPU, if any are.
pub proof fn law_report(t: &Table, cycle: u64, r: Option<usize>)
    requires
        call_ensures(cycle::report, (t, cycle), r),
    ensures
        r is Some <==> cycle % 10 == 0 && t.rows().filter(|s: ProcState| s.use_gpu).len() > 0,
        r is Some ==> r->0 == t.rows().filter(|s: ProcState| s.use_gpu).len(),
{
    table::law_on_the_gpu(t.rows());
}

/// The turns of a round: those who hold the GPU open, with the owner that was seen;
/// then those who compute on it without, one turn for each process, for the load of
/// the GPU but no less than one half; then those known who do neither.
pub proof fn law_plan(t: &Table, found: &ProcScanResult, gpu: &GpuMetrics, r: Vec<Work>)
    requires
        call_ensures(cycle::plan, (t, found, gpu), r),
    ensures
        ({
            let users = found.nvidia_users;
            let procs = gpu.compute_procs@;
            let half = Scalar { bits: 0x3FE0_0000_0000_0000 };
            let share = if gpu.util_pct.nan() || gpu.util_pct.below(half) {
                half
            } else {
                gpu.util_pct
            };
            r@.map_values(|w: Work| Turn { comm: w.comm@, uid: w.uid, signal: w.signal })
                == users.rows().map_values(
                |u: (String, u32)| Turn { comm: u.0@, uid: u.1, signal: Signal::Open },
            ) + procs.filter(|p: (u32, String)| !users@.contains_key(p.1@)).map_values(
                |p: (u32, String)| Turn { comm: p.1@, uid: 1000, signal: Signal::Compute(share) },
            ) + t.rows().filter(
                |s: ProcState|
                    !users@.contains_key(s.comm@) && !(exists|i: int|
                        0 <= i < procs.len() && (#[trigger] procs[i]).1@ == s.comm@),
            ).map_values(|s: ProcState| Turn { comm: s.comm@, uid: s.uid, signal: Signal::Idle })
        }),
{
    let share = cycle::load_share(gpu.util_pct);
    cycle::law_plan(*t, found.nvidia_users, gpu.compute_procs@, share);
    cycle::law_load_share(gpu.util_pct);
    assert(r@.map_values(|w: Work| Turn { comm: w.comm@, uid: w.uid, signal: w.signal })
        =~= cycle::turns(r@));
}

/// A spread is what was worked out, but no lower than 0.15 and no higher than 0.50.
pub proof fn law_spread(raw: Scalar, r: Spread)
    requires
        call_ensures(Spread::at, (raw,), r),
    ensures
        ({
            let (lo, hi) = (
                Scalar { bits: 0x3FC3_3333_3333_3333 },
                Scalar { bits: 0x3FE0_0000_0000_0000 },
            );
            &&& raw.below(lo) ==> r.val() == lo
            &&& hi.below(raw) ==> r.val() == hi
            &&& !raw.below(lo) && !hi.below(raw) ==> r.val() == raw
        }),
{
}

/// Records can be counted as long as those with a share larger than 0.01 can.
pub proof fn law_is_countable(recs: &Vec<Record>, r: bool)
    requires
        call_ensures(table::is_countable, (recs,), r),
    ensures
        r <==> recs@.filter(
            |x: Record|
                x.ema is Some && (Scalar { bits: 0x3F84_7AE1_47AE_147B }).below(x.ema->0),
        ).len() <= 0xFFFF_FFFF,
{
    table::law_counting(recs@);
}

} // verus!
