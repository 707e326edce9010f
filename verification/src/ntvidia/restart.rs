//! What the GPU scheduler has learned, from one run to the next: saved, written
//! into its file, read, and taken over.

use super::state::ProcState;
use super::table;
use super::table::KeptFields;
use super::table::Record;
use super::table::Table;
use crate::learned;
use crate::learned::GpuFields;
use crate::order;
use crate::scalar::Scalar;
use crate::text;
use vstd::prelude::*;

verus! {

/// Whether a name comes through the file as it is, and its share as one that is
/// worth keeping: `write` is how a number becomes text, `read` how a text becomes
/// a number.
pub open spec fn comes_through(
    comm: Seq<char>,
    ema: Scalar,
    write: spec_fn(Scalar) -> Seq<char>,
    read: spec_fn(Seq<char>) -> Option<Scalar>,
) -> bool {
    &&& learned::storable(comm)
    &&& text::trim(comm) == comm
    &&& !write(ema).contains(',')
    &&& !write(ema).contains('\n')
    &&& read(text::trim(write(ema))) is Some
    &&& table::worth_keeping(read(text::trim(write(ema)))->0)
}

/// The rows of the file for what is kept.
pub open spec fn rows_of(
    kept: Seq<KeptFields>,
    write: spec_fn(Scalar) -> Seq<char>,
) -> Seq<GpuFields> {
    kept.map_values(|k: KeptFields| GpuFields { comm: k.comm, ema: write(k.ema), uid: k.uid })
}

/// Whether some records are what is read of a file.
pub open spec fn are_read(
    recs: Seq<Record>,
    content: Seq<char>,
    read: spec_fn(Seq<char>) -> Option<Scalar>,
) -> bool {
    let rows = learned::gpu_rows_in(text::lines(content));
    &&& recs.len() == rows.len()
    &&& forall|i: int|
        0 <= i < recs.len() ==> (#[trigger] recs[i]).comm@ == rows[i].comm && recs[i].uid
            == rows[i].uid && recs[i].ema == read(rows[i].ema)
}

/// The learned history survives a restart. The next run, which knows nobody at
/// its start, knows exactly the names whose share was worth keeping, each under
/// its owner and with its share, as the file gives it back.
pub proof fn law_history_survives(
    t: Table,
    kept: Seq<KeptFields>,
    by: Seq<usize>,
    write: spec_fn(Scalar) -> Seq<char>,
    read: spec_fn(Seq<char>) -> Option<Scalar>,
    recs: Seq<Record>,
    next: Map<Seq<char>, ProcState>,
    ts: u64,
    c: Seq<char>,
)
    requires
        t.wf(),
        order::is_order(table::kept_keys(table::kept_of(t.rows())), by),
        kept == table::arranged(table::kept_of(t.rows()), by),
        forall|n: Seq<char>| #[trigger]
            t@.contains_key(n) && table::worth_keeping(t@[n].gpu_rate_ema) ==> comes_through(
                n,
                t@[n].gpu_rate_ema,
                write,
                read,
            ),
        are_read(recs, learned::GPU_HEADER@ + learned::gpu_body(rows_of(kept, write)), read),
        table::restored(Map::empty(), next, recs, ts),
    ensures
        next.contains_key(c) <==> t@.contains_key(c) && table::worth_keeping(t@[c].gpu_rate_ema),
        next.contains_key(c) ==> {
            &&& next[c].comm@ == c
            &&& next[c].uid == t@[c].uid
            &&& next[c].gpu_rate_ema == read(text::trim(write(t@[c].gpu_rate_ema)))->0
        },
{
    let rows = rows_of(kept, write);
    let content = learned::GPU_HEADER@ + learned::gpu_body(rows);
    assert forall|i: int| 0 <= i < kept.len() implies {
        &&& t@.contains_key((#[trigger] kept[i]).comm)
        &&& table::tells(kept[i], t@[kept[i].comm])
        &&& comes_through(kept[i].comm, kept[i].ema, write, read)
    } by {
        table::lemma_kept_is_known(t, by, i);
    }
    assert forall|i: int| 0 <= i < rows.len() implies {
        &&& learned::storable((#[trigger] rows[i]).comm)
        &&& !rows[i].ema.contains(',')
        &&& !rows[i].ema.contains('\n')
    } by {
        assert(comes_through(kept[i].comm, kept[i].ema, write, read));
    }
    learned::law_gpu_file_survives(rows);
    let back = rows.map_values(|r: GpuFields| learned::gpu_trimmed(r));
    assert(learned::gpu_rows_in(text::lines(content)) == back);
    assert forall|i: int| 0 <= i < recs.len() implies {
        &&& (#[trigger] recs[i]).counts()
        &&& recs[i].comm@ == kept[i].comm
        &&& recs[i].uid == kept[i].uid
        &&& recs[i].ema == read(text::trim(write(kept[i].ema)))
    } by {
        assert(comes_through(kept[i].comm, kept[i].ema, write, read));
        assert(back[i] == learned::gpu_trimmed(rows[i]));
    }
    table::law_learning_survives(t, by, recs, next, ts, c);
    if next.contains_key(c) {
        let i = choose|i: int|
            0 <= i < recs.len() && (#[trigger] recs[i]).comm@ == c && recs[i].ema == Some(
                next[c].gpu_rate_ema,
            );
        assert(table::tells(kept[i], t@[kept[i].comm]));
        assert(recs[i].comm@ == kept[i].comm);
    }
}

} // verus!
