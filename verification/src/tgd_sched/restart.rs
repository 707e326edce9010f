//! What the CPU scheduler has learned, from one run to the next: saved, written
//! into its file, read, and taken over.

use super::scan::Pid;
use super::sched;
use super::sched::Peak;
use super::sched::ProcState;
use super::sched::Record;
use crate::learned;
use crate::learned::CpuFields;
use crate::scalar::Scalar;
use crate::text;
use vstd::prelude::*;

verus! {

/// Whether a name comes through the file as it is, and its share as one that is
/// worth keeping: `write` is how a number becomes text, `read` how a text becomes
/// a number.
pub open spec fn comes_through(
    comm: Seq<char>,
    cpu: Scalar,
    write: spec_fn(Scalar) -> Seq<char>,
    read: spec_fn(Seq<char>) -> Option<Scalar>,
) -> bool {
    &&& learned::storable(comm)
    &&& text::trim(comm) == comm
    &&& !write(cpu).contains('\n')
    &&& read(text::trim(write(cpu))) is Some
    &&& sched::worth_keeping(read(text::trim(write(cpu)))->0)
}

/// The rows of the file for what is saved.
pub open spec fn rows_of(
    saved: Seq<Peak>,
    write: spec_fn(Scalar) -> Seq<char>,
) -> Seq<CpuFields> {
    saved.map_values(|p: Peak| CpuFields { comm: p.comm@, cpu: write(p.cpu) })
}

/// Whether some records are what is read of a file.
pub open spec fn are_read(
    recs: Seq<Record>,
    content: Seq<char>,
    read: spec_fn(Seq<char>) -> Option<Scalar>,
) -> bool {
    let rows = learned::cpu_rows_in(text::lines(content));
    &&& recs.len() == rows.len()
    &&& forall|i: int|
        0 <= i < recs.len() ==> (#[trigger] recs[i]).comm@ == rows[i].comm && recs[i].cpu == read(
            rows[i].cpu,
        )
}

/// The learned history survives a restart. The next run has a share for those
/// names of which a process had one worth keeping, and for no others; the share
/// is the largest that a process of the name had, as the file gives it back. A
/// name of which some share is not a number may be left out.
pub proof fn law_history_survives(
    known: Map<Pid, ProcState>,
    saved: Seq<Peak>,
    write: spec_fn(Scalar) -> Seq<char>,
    read: spec_fn(Seq<char>) -> Option<Scalar>,
    recs: Seq<Record>,
    c: Seq<char>,
)
    requires
        sched::is_saved(saved, known),
        forall|pid: Pid| #[trigger]
            known.contains_key(pid) && sched::worth_keeping(known[pid].smooth_cpu)
                ==> comes_through(known[pid].comm@, known[pid].smooth_cpu, write, read),
        are_read(recs, learned::CPU_HEADER@ + learned::cpu_body(rows_of(saved, write)), read),
    ensures
        sched::shares_in(recs).contains_key(c) ==> exists|pid: Pid| #[trigger]
            known.contains_key(pid) && known[pid].comm@ == c && sched::worth_keeping(
                known[pid].smooth_cpu,
            ) && sched::shares_in(recs)[c] == read(text::trim(write(known[pid].smooth_cpu)))->0
                && sched::on_top(Peak { comm: known[pid].comm, cpu: known[pid].smooth_cpu }, known),
        forall|pid: Pid| #[trigger]
            known.contains_key(pid) && known[pid].comm@ == c && sched::worth_keeping(
                known[pid].smooth_cpu,
            ) && sched::sound_name(c, known) ==> sched::shares_in(recs).contains_key(c),
{
    let rows = rows_of(saved, write);
    let content = learned::CPU_HEADER@ + learned::cpu_body(rows);
    assert forall|i: int| 0 <= i < rows.len() implies {
        &&& learned::storable((#[trigger] rows[i]).comm)
        &&& !rows[i].cpu.contains('\n')
        &&& comes_through(saved[i].comm@, saved[i].cpu, write, read)
    } by {
        let pid = lemma_holder(known, saved, i);
        assert(known.contains_key(pid));
    }
    learned::law_cpu_file_survives(rows);
    let back = rows.map_values(|r: CpuFields| learned::cpu_trimmed(r));
    assert(learned::cpu_rows_in(text::lines(content)) == back);
    assert forall|k: int| 0 <= k < recs.len() implies {
        &&& (#[trigger] recs[k]).counts()
        &&& recs[k].comm@ == saved[k].comm@
        &&& recs[k].cpu == read(text::trim(write(saved[k].cpu)))
    } by {
        assert(rows[k].comm == saved[k].comm@);
        assert(back[k] == learned::cpu_trimmed(rows[k]));
    }
    sched::law_saved_shares_come_back(saved, recs, c);
    if sched::shares_in(recs).contains_key(c) {
        let i = choose|i: int| 0 <= i < saved.len() && (#[trigger] saved[i]).comm@ == c;
        let pid = lemma_holder(known, saved, i);
        assert(recs[i].cpu == read(text::trim(write(saved[i].cpu))));
        assert(sched::on_top(saved[i], known));
        let top = Peak { comm: known[pid].comm, cpu: known[pid].smooth_cpu };
        assert(sched::on_top(top, known));
        assert(known.contains_key(pid));
    }
}

/// The process that has the share of a saved row.
proof fn lemma_holder(known: Map<Pid, ProcState>, saved: Seq<Peak>, i: int) -> (pid: Pid)
    requires
        sched::is_saved(saved, known),
        0 <= i < saved.len(),
    ensures
        known.contains_key(pid),
        known[pid].comm@ == saved[i].comm@,
        known[pid].smooth_cpu == saved[i].cpu,
        sched::worth_keeping(known[pid].smooth_cpu),
{
    assert(sched::attained(saved[i], known));
    choose|pid: Pid| #[trigger]
        known.contains_key(pid) && known[pid].comm@ == saved[i].comm@ && known[pid].smooth_cpu
            == saved[i].cpu
}

} // verus!
