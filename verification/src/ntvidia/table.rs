//! All that the GPU scheduler knows: the states of the process names it met.

use super::scan::UidTable;
use super::state;
use super::state::ProcState;
use super::state::StartDensity;
use super::state::Step;
use crate::order;
use crate::scalar::Position;
use crate::scalar::Scalar;
use crate::score;
use vstd::prelude::*;

verus! {

/// The pattern of 0.01: a smaller share is not worth keeping.
pub const KEEP_BITS: u64 = 0x3F84_7AE1_47AE_147B;

/// How long a score may go without a change, in seconds.
pub const SCORE_MAX_AGE_S: u64 = 300;

/// The states of some process names.
#[derive(Debug)]
pub struct Table {
    states: Vec<ProcState>,
}

/// The names of some states.
pub open spec fn names(rows: Seq<ProcState>) -> Seq<Seq<char>> {
    rows.map_values(|s: ProcState| s.comm@)
}

/// The place of a name among some states.
pub open spec fn place(rows: Seq<ProcState>, name: Seq<char>) -> int {
    choose|i: int| 0 <= i < rows.len() && (#[trigger] rows[i]).comm@ == name
}

/// A row of the file in which the scheduler keeps what it learned.
#[derive(Debug)]
pub struct Kept {
    pub comm: String,
    pub ema: Scalar,
    pub uid: u32,
}

/// A kept row, by what it holds.
pub struct KeptFields {
    pub comm: Seq<char>,
    pub ema: Scalar,
    pub uid: u32,
}

impl View for Kept {
    type V = KeptFields;

    open spec fn view(&self) -> KeptFields {
        KeptFields { comm: self.comm@, ema: self.ema, uid: self.uid }
    }
}

pub open spec fn kept_fields(v: Seq<Kept>) -> Seq<KeptFields> {
    v.map_values(|k: Kept| k@)
}

pub open spec fn kept_keys(v: Seq<KeptFields>) -> Seq<Scalar> {
    v.map_values(|k: KeptFields| k.ema)
}

/// Whether a share is worth keeping.
pub open spec fn worth_keeping(ema: Scalar) -> bool {
    (Scalar { bits: KEEP_BITS }).below(ema)
}

/// The rows that are worth keeping, in the order of the states.
pub open spec fn kept_of(rows: Seq<ProcState>) -> Seq<KeptFields>
    decreases rows.len(),
{
    if rows.len() == 0 {
        Seq::empty()
    } else {
        let front = kept_of(rows.drop_last());
        let s = rows.last();
        if worth_keeping(s.gpu_rate_ema) {
            front.push(KeptFields { comm: s.comm@, ema: s.gpu_rate_ema, uid: s.uid })
        } else {
            front
        }
    }
}

/// Some items in a given order.
pub open spec fn arranged(items: Seq<KeptFields>, by: Seq<usize>) -> Seq<KeptFields> {
    Seq::new(by.len(), |i: int| items[by[i] as int])
}

/// What was read of a row of that file: the share, if it is a number, and the
/// position and the density that follow from it.
#[derive(Debug)]
pub struct Record {
    pub comm: String,
    pub uid: u32,
    pub ema: Option<Scalar>,
    pub x_pos: Position,
    pub density: Scalar,
}

impl Record {
    /// Whether the record is taken over.
    pub open spec fn counts(self) -> bool {
        self.ema is Some && worth_keeping(self.ema->0)
    }
}

/// How many records are taken over.
pub open spec fn counting(recs: Seq<Record>) -> nat
    decreases recs.len(),
{
    if recs.len() == 0 {
        0
    } else {
        counting(recs.drop_last()) + if recs.last().counts() {
            1nat
        } else {
            0
        }
    }
}

/// The first records hold no more that count than all of them do.
proof fn lemma_counting(recs: Seq<Record>, n: int)
    requires
        0 <= n <= recs.len(),
    ensures
        counting(recs.take(n)) <= counting(recs),
    decreases recs.len() - n,
{
    if n < recs.len() {
        assert(recs.take(n + 1).drop_last() =~= recs.take(n));
        lemma_counting(recs, n + 1);
    } else {
        assert(recs.take(n) =~= recs);
    }
}

/// Whether the records that are taken over can be counted in a `u32`.
pub fn is_countable(recs: &Vec<Record>) -> (r: bool)
    ensures
        r == (counting(recs@) <= u32::MAX),
{
    let mut n: usize = 0;
    let mut i: usize = 0;
    assert(recs@.take(0) =~= Seq::<Record>::empty());
    while i < recs.len()
        invariant
            i <= recs@.len(),
            n == counting(recs@.take(i as int)),
            n <= i,
        decreases recs.len() - i,
    {
        assert(recs@.take(i + 1).drop_last() =~= recs@.take(i as int));
        match recs[i].ema {
            Some(share) => {
                let keep: Scalar = Scalar { bits: KEEP_BITS };
                if keep.lt(share) {
                    n = n + 1;
                }
            },
            None => {},
        }
        i = i + 1;
    }
    assert(recs@.take(i as int) =~= recs@);
    n <= u32::MAX as usize
}

/// The first record of a name that is taken over.
pub open spec fn first_of(recs: Seq<Record>, i: int) -> bool {
    &&& 0 <= i < recs.len()
    &&& recs[i].counts()
    &&& forall|j: int|
        0 <= j < i && (#[trigger] recs[j]).counts() ==> recs[j].comm@ != recs[i].comm@
}

/// Whether `now` is `was` with the records taken over. A name that is already
/// known stays as it is, and of several records of a name the first counts.
pub open spec fn restored(
    was: Map<Seq<char>, ProcState>,
    now: Map<Seq<char>, ProcState>,
    recs: Seq<Record>,
    ts: u64,
) -> bool {
    &&& forall|c: Seq<char>| was.contains_key(c) ==> #[trigger] now.contains_key(c) && now[c] == was[c]
    &&& forall|i: int|
        first_of(recs, i) && !was.contains_key((#[trigger] recs[i]).comm@) ==> now.contains_key(
            recs[i].comm@,
        ) && state::is_learned(
            now[recs[i].comm@],
            recs[i].comm@,
            recs[i].uid,
            recs[i].ema->0,
            recs[i].x_pos,
            recs[i].density,
            ts,
        )
    &&& forall|c: Seq<char>| #[trigger]
        now.contains_key(c) && !was.contains_key(c) ==> exists|i: int|
            first_of(recs, i) && (#[trigger] recs[i]).comm@ == c
}

/// Whether `now` is `was` with a new state for each name that was not known.
pub open spec fn enrolled(
    was: Map<Seq<char>, ProcState>,
    now: Map<Seq<char>, ProcState>,
    seen: Map<Seq<char>, u32>,
    start: StartDensity,
    ts: u64,
) -> bool {
    &&& forall|c: Seq<char>| #[trigger] now.contains_key(c) <==> was.contains_key(c)
        || seen.contains_key(c)
    &&& forall|c: Seq<char>| #[trigger] was.contains_key(c) ==> now[c] == was[c]
    &&& forall|c: Seq<char>| #[trigger]
        seen.contains_key(c) && !was.contains_key(c) ==> state::is_new(
            now[c],
            c,
            seen[c],
            start,
            ts,
        )
}

/// The first rows of a table of owners, as a table.
spec fn first_rows(t: UidTable, n: int) -> Map<Seq<char>, u32> {
    t@.restrict(Set::new(|c: Seq<char>| super::scan::row_names(t.rows().take(n)).contains(c)))
}

/// Whether a score file is out of date, by its name: nobody is known by that very
/// name, or nothing changed for a while and there is hardly a share left.
pub open spec fn is_stale(known: Map<Seq<char>, ProcState>, name: Seq<char>, now: u64) -> bool {
    if known.contains_key(name) {
        &&& now - known[name].last_updated_ts > SCORE_MAX_AGE_S
        &&& known[name].gpu_rate_ema.below(Scalar { bits: KEEP_BITS })
    } else {
        true
    }
}

/// The places of the score files that are out of date, in their order.
pub open spec fn stale_places(
    known: Map<Seq<char>, ProcState>,
    files: Seq<String>,
    now: u64,
) -> Seq<usize>
    decreases files.len(),
{
    if files.len() == 0 {
        Seq::empty()
    } else {
        let front = stale_places(known, files.drop_last(), now);
        if is_stale(known, files.last()@, now) {
            front.push((files.len() - 1) as usize)
        } else {
            front
        }
    }
}

pub open spec fn string_views(v: Seq<String>) -> Seq<Seq<char>> {
    v.map_values(|s: String| s@)
}

/// How many of the states belong on the GPU.
pub open spec fn on_gpu(rows: Seq<ProcState>) -> nat
    decreases rows.len(),
{
    if rows.len() == 0 {
        0
    } else {
        on_gpu(rows.drop_last()) + if rows.last().use_gpu {
            1nat
        } else {
            0
        }
    }
}

impl Table {
    /// The states, in the order in which their names came up.
    pub closed spec fn rows(self) -> Seq<ProcState> {
        self.states@
    }

    /// No name has two states.
    pub open spec fn wf(self) -> bool {
        names(self.rows()).no_duplicates()
    }

    /// The state of each name.
    pub open spec fn view(self) -> Map<Seq<char>, ProcState> {
        Map::new(
            |c: Seq<char>| names(self.rows()).contains(c),
            |c: Seq<char>| self.rows()[place(self.rows(), c)],
        )
    }

    /// A state is an entry of the table.
    pub proof fn lemma_row(self, i: int)
        requires
            self.wf(),
            0 <= i < self.rows().len(),
        ensures
            self@.contains_key(self.rows()[i].comm@),
            self@[self.rows()[i].comm@] == self.rows()[i],
    {
        let rows = self.rows();
        let c = rows[i].comm@;
        assert(names(rows)[i] == c);
        let p = place(rows, c);
        assert(names(rows)[p] == c);
    }

    /// An entry of the table is one of the states, under its own name.
    pub proof fn lemma_entry(self, c: Seq<char>) -> (i: int)
        requires
            self.wf(),
            self@.contains_key(c),
        ensures
            0 <= i < self.rows().len(),
            self.rows()[i].comm@ == c,
            self@[c] == self.rows()[i],
    {
        let i = choose|i: int| 0 <= i < names(self.rows()).len() && names(self.rows())[i] == c;
        assert(self.rows()[i].comm@ == c);
        self.lemma_row(i);
        i
    }

    /// The table with no state in it.
    pub fn new() -> (r: Table)
        ensures
            r.wf(),
            r@ == Map::<Seq<char>, ProcState>::empty(),
    {
        let r = Table { states: Vec::new() };
        assert(r@ =~= Map::<Seq<char>, ProcState>::empty());
        r
    }

    /// How many states there are.
    pub fn len(&self) -> (n: usize)
        ensures
            n == self.rows().len(),
    {
        self.states.len()
    }

    /// A state, by its place.
    pub fn row(&self, i: usize) -> (r: &ProcState)
        requires
            i < self.rows().len(),
        ensures
            *r == self.rows()[i as int],
    {
        &self.states[i]
    }

    /// Where a name stands.
    fn find(&self, name: &str) -> (r: Option<usize>)
        requires
            self.wf(),
        ensures
            r is Some <==> self@.contains_key(name@),
            r matches Some(i) ==> {
                &&& i < self.rows().len()
                &&& self.rows()[i as int].comm@ == name@
                &&& self@[name@] == self.rows()[i as int]
            },
    {
        let key: String = name.to_owned();
        let mut i: usize = 0;
        while i < self.states.len()
            invariant
                i <= self.states@.len(),
                key@ == name@,
                self.wf(),
                forall|j: int| 0 <= j < i ==> (#[trigger] self.states@[j]).comm@ != name@,
            decreases self.states.len() - i,
        {
            if self.states[i].comm == key {
                proof {
                    self.lemma_row(i as int);
                }
                return Some(i);
            }
            i = i + 1;
        }
        proof {
            if self@.contains_key(name@) {
                let j = self.lemma_entry(name@);
            }
        }
        None
    }

    /// Whether a name is known.
    pub fn contains(&self, name: &str) -> (r: bool)
        requires
            self.wf(),
        ensures
            r == self@.contains_key(name@),
    {
        self.find(name).is_some()
    }

    /// The state of a name.
    pub fn get(&self, name: &str) -> (r: Option<&ProcState>)
        requires
            self.wf(),
        ensures
            r is Some <==> self@.contains_key(name@),
            r matches Some(s) ==> *s == self@[name@],
    {
        match self.find(name) {
            Some(i) => Some(&self.states[i]),
            None => None,
        }
    }

    /// Adds a state under a new name.
    fn add(&mut self, s: ProcState)
        requires
            old(self).wf(),
            !old(self)@.contains_key(s.comm@),
        ensures
            final(self).wf(),
            final(self)@ == old(self)@.insert(s.comm@, s),
            final(self).rows() == old(self).rows().push(s),
    {
        let ghost was = *self;
        self.states.push(s);
        proof {
            lemma_added(was, *self, s);
        }
    }

    /// Adds a state for each name that is not known, and tells which those are.
    pub fn enroll(&mut self, seen: &UidTable, start: &StartDensity, now: u64) -> (added: Vec<String>)
        requires
            old(self).wf(),
            seen.wf(),
        ensures
            final(self).wf(),
            enrolled(old(self)@, final(self)@, seen@, *start, now),
            string_views(added@).no_duplicates(),
            forall|c: Seq<char>| #[trigger]
                string_views(added@).contains(c) <==> seen@.contains_key(c) && !old(self)@.contains_key(c),
    {
        let mut added: Vec<String> = Vec::new();
        let n: usize = seen.len();
        let mut i: usize = 0;
        assert(first_rows(*seen, 0) =~= Map::<Seq<char>, u32>::empty()) by {
            assert(super::scan::row_names(seen.rows().take(0)).len() == 0);
        }
        while i < n
            invariant
                n == seen.rows().len(),
                i <= n,
                seen.wf(),
                self.wf(),
                enrolled(old(self)@, self@, first_rows(*seen, i as int), *start, now),
                string_views(added@).no_duplicates(),
                forall|c: Seq<char>| #[trigger]
                    string_views(added@).contains(c) <==> first_rows(*seen, i as int).contains_key(c)
                        && !old(self)@.contains_key(c),
            decreases n - i,
        {
            let (name, uid) = seen.row(i);
            let ghost was = self@;
            let ghost added_was = string_views(added@);
            let ghost c = name@;
            proof {
                lemma_first_rows(*seen, i as int);
            }
            if !self.contains(name) {
                let s = ProcState::new(name, uid, start, now);
                self.add(s);
                added.push(name.to_owned());
                proof {
                    assert(string_views(added@) =~= added_was.push(c));
                    lemma_pushed_names(added_was, c);
                }
            }
            i = i + 1;
        }
        proof {
            assert(seen.rows().take(n as int) =~= seen.rows());
            assert(first_rows(*seen, n as int) =~= seen@);
        }
        added
    }

    /// Takes over the records of an earlier run, and tells how many counted.
    pub fn load_learned(&mut self, recs: &Vec<Record>, now: u64) -> (loaded: u32)
        requires
            old(self).wf(),
            counting(recs@) <= u32::MAX,
        ensures
            final(self).wf(),
            restored(old(self)@, final(self)@, recs@, now),
            loaded == counting(recs@),
    {
        let mut loaded: u32 = 0;
        let mut i: usize = 0;
        while i < recs.len()
            invariant
                i <= recs@.len(),
                counting(recs@) <= u32::MAX,
                self.wf(),
                restored(old(self)@, self@, recs@.take(i as int), now),
                loaded == counting(recs@.take(i as int)),
            decreases recs.len() - i,
        {
            let r = &recs[i];
            let ghost was = self@;
            assert(recs@.take(i + 1).drop_last() =~= recs@.take(i as int));
            match r.ema {
                Some(ema) => {
                    let keep: Scalar = Scalar { bits: KEEP_BITS };
                    if keep.lt(ema) {
                        if !self.contains(r.comm.as_str()) {
                            let s = ProcState::new_with_ema(
                                r.comm.as_str(),
                                r.uid,
                                ema,
                                r.x_pos,
                                r.density,
                                now,
                            );
                            self.add(s);
                        }
                        proof {
                            lemma_counting(recs@, i + 1);
                        }
                        loaded = loaded + 1;
                    }
                },
                None => {},
            }
            proof {
                lemma_restored(old(self)@, was, self@, recs@, i as int, now);
            }
            i = i + 1;
        }
        assert(recs@.take(i as int) =~= recs@);
        loaded
    }

    /// What is worth keeping for the next run: the largest share first, and of
    /// two equal shares the name that came up first.
    pub fn save_learned(&self) -> (r: Vec<Kept>)
        ensures
            exists|by: Seq<usize>| #[trigger]
                order::is_order(kept_keys(kept_of(self.rows())), by) && kept_fields(r@)
                    == arranged(kept_of(self.rows()), by),
    {
        let mut kept: Vec<Kept> = Vec::new();
        let mut keys: Vec<Scalar> = Vec::new();
        let ghost rows = self.rows();
        let mut i: usize = 0;
        assert(rows.take(0) =~= Seq::<ProcState>::empty());
        assert(kept_fields(kept@) =~= Seq::<KeptFields>::empty());
        assert(keys@ =~= kept_keys(Seq::<KeptFields>::empty()));
        while i < self.states.len()
            invariant
                i <= rows.len(),
                rows == self.states@,
                kept_fields(kept@) == kept_of(rows.take(i as int)),
                keys@ == kept_keys(kept_of(rows.take(i as int))),
                order::all_numbers(keys@),
            decreases self.states.len() - i,
        {
            let s = &self.states[i];
            let ghost done = kept_fields(kept@);
            assert(rows.take(i + 1).drop_last() =~= rows.take(i as int));
            let keep: Scalar = Scalar { bits: KEEP_BITS };
            if keep.lt(s.gpu_rate_ema) {
                let k = Kept { comm: s.comm.clone(), ema: s.gpu_rate_ema, uid: s.uid };
                kept.push(k);
                keys.push(s.gpu_rate_ema);
                assert(kept_fields(kept@) =~= done.push(k@));
                assert(kept_keys(done.push(k@)) =~= kept_keys(done).push(k@.ema));
            }
            i = i + 1;
        }
        assert(rows.take(i as int) =~= rows);
        let by = order::falling(&keys);
        let mut out: Vec<Kept> = Vec::new();
        let ghost items = kept_of(rows);
        let mut n: usize = 0;
        while n < by.len()
            invariant
                n <= by@.len(),
                items == kept_fields(kept@),
                order::is_order(kept_keys(items), by@),
                kept_fields(out@) == arranged(items, by@).take(n as int),
            decreases by.len() - n,
        {
            let ghost done = kept_fields(out@);
            assert(by@[n as int] < kept_keys(items).len());
            let k = &kept[by[n]];
            let copy = Kept { comm: k.comm.clone(), ema: k.ema, uid: k.uid };
            out.push(copy);
            assert(kept_fields(out@) =~= done.push(copy@));
            assert(items[by@[n as int] as int] == k@);
            assert(arranged(items, by@).take(n + 1) =~= arranged(items, by@).take(n as int).push(
                items[by@[n as int] as int],
            ));
            n = n + 1;
        }
        assert(arranged(items, by@).take(n as int) =~= arranged(items, by@));
        out
    }

    /// Whether a score file is out of date, by its name.
    pub fn stale(&self, name: &str, now: u64) -> (r: bool)
        requires
            self.wf(),
        ensures
            r == is_stale(self@, name@, now),
    {
        match self.get(name) {
            Some(s) => {
                let keep: Scalar = Scalar { bits: KEEP_BITS };
                now.saturating_sub(s.last_updated_ts) > SCORE_MAX_AGE_S && s.gpu_rate_ema.lt(keep)
            },
            None => true,
        }
    }

    /// Which of the score files are to be removed, by their places.
    pub fn clean_stale_scores(&self, files: &Vec<String>, now: u64) -> (r: Vec<usize>)
        requires
            self.wf(),
        ensures
            r@ == stale_places(self@, files@, now),
    {
        let mut out: Vec<usize> = Vec::new();
        let mut i: usize = 0;
        assert(files@.take(0) =~= Seq::<String>::empty());
        while i < files.len()
            invariant
                i <= files@.len(),
                self.wf(),
                out@ == stale_places(self@, files@.take(i as int), now),
            decreases files.len() - i,
        {
            assert(files@.take(i + 1).drop_last() =~= files@.take(i as int));
            if self.stale(files[i].as_str(), now) {
                out.push(i);
            }
            i = i + 1;
        }
        assert(files@.take(i as int) =~= files@);
        out
    }

    /// How many names belong on the GPU.
    pub fn gpu_count(&self) -> (n: usize)
        ensures
            n == on_gpu(self.rows()),
    {
        let mut n: usize = 0;
        let mut i: usize = 0;
        let ghost rows = self.rows();
        assert(rows.take(0) =~= Seq::<ProcState>::empty());
        while i < self.states.len()
            invariant
                i <= rows.len(),
                rows == self.states@,
                n == on_gpu(rows.take(i as int)),
                n <= i,
            decreases self.states.len() - i,
        {
            assert(rows.take(i + 1).drop_last() =~= rows.take(i as int));
            if self.states[i].use_gpu {
                n = n + 1;
            }
            i = i + 1;
        }
        assert(rows.take(i as int) =~= rows);
        n
    }

    /// Gives a name a new owner, unless it is to keep the one it has; a name that
    /// is not known gets a new state.
    pub fn meet(&mut self, name: &str, uid: u32, keep_owner: bool, start: &StartDensity, now: u64)
        requires
            old(self).wf(),
        ensures
            final(self).wf(),
            final(self)@.contains_key(name@),
            final(self)@ == old(self)@.insert(name@, final(self)@[name@]),
            old(self)@.contains_key(name@) ==> final(self)@[name@] == (if keep_owner {
                old(self)@[name@]
            } else {
                ProcState { uid, ..old(self)@[name@] }
            }),
            !old(self)@.contains_key(name@) ==> state::is_new(
                final(self)@[name@],
                name@,
                uid,
                *start,
                now,
            ),
    {
        let ghost was = *self;
        match self.find(name) {
            Some(i) => {
                assert(was@.insert(name@, was@[name@]) =~= was@);
                if !keep_owner {
                    self.states[i].uid = uid;
                    proof {
                        lemma_replaced(was, *self, i as int);
                    }
                }
            },
            None => {
                let s = ProcState::new(name, uid, start, now);
                self.add(s);
            },
        }
    }

    /// Takes in an observation of a name, and tells whether that moved it on or
    /// off the GPU. Of a name that is not known nothing is taken in.
    pub fn observe(&mut self, name: &str, step: &Step, now: u64) -> (moved: bool)
        requires
            old(self).wf(),
        ensures
            final(self).wf(),
            !old(self)@.contains_key(name@) ==> !moved && final(self)@ == old(self)@,
            old(self)@.contains_key(name@) ==> {
                let s = state::updated(old(self)@[name@], *step, now);
                &&& final(self)@ == old(self)@.insert(name@, s)
                &&& moved == (s.use_gpu != old(self)@[name@].use_gpu)
            },
    {
        let ghost was = *self;
        match self.find(name) {
            Some(i) => {
                let prev: bool = self.states[i].use_gpu;
                self.states[i].update(step, now);
                proof {
                    lemma_replaced(was, *self, i as int);
                }
                self.states[i].use_gpu != prev
            },
            None => false,
        }
    }
}

/// A state more is an entry more.
proof fn lemma_added(was: Table, now: Table, s: ProcState)
    requires
        was.wf(),
        now.rows() == was.rows().push(s),
        !was@.contains_key(s.comm@),
    ensures
        now.wf(),
        now@ == was@.insert(s.comm@, s),
{
    let n = was.rows().len() as int;
    let c = s.comm@;
    let a = names(was.rows());
    let b = names(now.rows());
    assert(b =~= a.push(c));
    lemma_pushed_names(a, c);
    let target = was@.insert(c, s);
    assert forall|k: Seq<char>| now@.contains_key(k) <==> #[trigger] target.contains_key(k) by {
        if k == c {
            assert(b[n] == c);
        } else {
            if b.contains(k) {
                let j = choose|j: int| 0 <= j < b.len() && b[j] == k;
                assert(a[j] == k);
            }
            if a.contains(k) {
                let j = choose|j: int| 0 <= j < a.len() && a[j] == k;
                assert(b[j] == k);
            }
        }
    }
    assert forall|k: Seq<char>| #[trigger] now@.contains_key(k) implies now@[k] == target[k] by {
        let j = now.lemma_entry(k);
        if j < n {
            was.lemma_row(j);
            assert(a[j] == k);
            assert(k != c);
        }
    }
    assert(now@ =~= target);
}

/// A state replaced is an entry replaced.
proof fn lemma_replaced(was: Table, now: Table, i: int)
    requires
        was.wf(),
        0 <= i < was.rows().len(),
        now.rows() == was.rows().update(i, now.rows()[i]),
        now.rows()[i].comm@ == was.rows()[i].comm@,
    ensures
        now.wf(),
        now@ == was@.insert(was.rows()[i].comm@, now.rows()[i]),
{
    let c = was.rows()[i].comm@;
    assert(names(now.rows()) =~= names(was.rows()));
    let target = was@.insert(c, now.rows()[i]);
    assert(names(was.rows())[i] == c);
    assert forall|k: Seq<char>| #[trigger] now@.contains_key(k) implies now@[k] == target[k] by {
        let j = now.lemma_entry(k);
        was.lemma_row(j);
        if j != i {
            assert(names(was.rows())[j] != names(was.rows())[i]);
        }
    }
    assert(now@ =~= target);
}

/// A new name among distinct names leaves them distinct.
proof fn lemma_pushed_names(a: Seq<Seq<char>>, c: Seq<char>)
    requires
        a.no_duplicates(),
        !a.contains(c),
    ensures
        a.push(c).no_duplicates(),
        forall|k: Seq<char>| #[trigger] a.push(c).contains(k) <==> a.contains(k) || k == c,
{
    let b = a.push(c);
    assert forall|i: int, j: int| 0 <= i < b.len() && 0 <= j < b.len() && i != j implies b[i]
        != b[j] by {
        if i < a.len() && j < a.len() {
            assert(a[i] != a[j]);
        } else if i < a.len() {
            assert(a.contains(a[i]));
        } else {
            assert(a.contains(a[j]));
        }
    }
    assert forall|k: Seq<char>| #[trigger] b.contains(k) <==> a.contains(k) || k == c by {
        if a.contains(k) {
            let j = choose|j: int| 0 <= j < a.len() && a[j] == k;
            assert(b[j] == k);
        }
        if k == c {
            assert(b[a.len() as int] == c);
        }
        if b.contains(k) && k != c {
            let j = choose|j: int| 0 <= j < b.len() && b[j] == k;
            assert(a[j] == k);
        }
    }
}

/// The next row of a table of owners is a new name.
proof fn lemma_first_rows(t: UidTable, n: int)
    requires
        t.wf(),
        0 <= n < t.rows().len(),
    ensures
        first_rows(t, n + 1) == first_rows(t, n).insert(t.rows()[n].0@, t.rows()[n].1),
        !first_rows(t, n).contains_key(t.rows()[n].0@),
{
    let a = super::scan::row_names(t.rows().take(n));
    let b = super::scan::row_names(t.rows().take(n + 1));
    let all = super::scan::row_names(t.rows());
    let c = t.rows()[n].0@;
    t.lemma_row(n);
    assert(b =~= a.push(c));
    assert(!a.contains(c)) by {
        if a.contains(c) {
            let j = choose|j: int| 0 <= j < a.len() && a[j] == c;
            assert(all[j] == all[n]);
        }
    }
    assert(a.no_duplicates()) by {
        assert forall|i: int, j: int| 0 <= i < a.len() && 0 <= j < a.len() && i != j implies a[i]
            != a[j] by {
            assert(all[i] != all[j]);
        }
    }
    lemma_pushed_names(a, c);
    assert(first_rows(t, n + 1) =~= first_rows(t, n).insert(c, t.rows()[n].1));
}

/// One record more is taken over, or not.
proof fn lemma_restored(
    start: Map<Seq<char>, ProcState>,
    was: Map<Seq<char>, ProcState>,
    now: Map<Seq<char>, ProcState>,
    recs: Seq<Record>,
    n: int,
    ts: u64,
)
    requires
        0 <= n < recs.len(),
        restored(start, was, recs.take(n), ts),
        !recs[n].counts() || was.contains_key(recs[n].comm@) ==> now == was,
        recs[n].counts() && !was.contains_key(recs[n].comm@) ==> exists|s: ProcState|
            now == #[trigger] was.insert(recs[n].comm@, s) && state::is_learned(
                s,
                recs[n].comm@,
                recs[n].uid,
                recs[n].ema->0,
                recs[n].x_pos,
                recs[n].density,
                ts,
            ),
    ensures
        restored(start, now, recs.take(n + 1), ts),
{
    let a = recs.take(n);
    let b = recs.take(n + 1);
    let c = recs[n].comm@;
    // A record that is first stays first.
    assert forall|i: int| 0 <= i < n && first_of(b, i) implies first_of(a, i) by {
        assert(a[i] == b[i]);
        assert forall|j: int| 0 <= j < i && (#[trigger] a[j]).counts() implies a[j].comm@
            != a[i].comm@ by {
            assert(b[j] == a[j]);
        }
    }
    assert forall|i: int| first_of(a, i) implies first_of(b, i) by {
        assert(a[i] == b[i]);
        assert forall|j: int| 0 <= j < i && (#[trigger] b[j]).counts() implies b[j].comm@
            != b[i].comm@ by {
            assert(a[j] == b[j]);
        }
    }
    assert forall|i: int| first_of(b, i) && !start.contains_key((#[trigger] b[i]).comm@) implies {
        &&& now.contains_key(b[i].comm@)
        &&& state::is_learned(
            now[b[i].comm@],
            b[i].comm@,
            b[i].uid,
            b[i].ema->0,
            b[i].x_pos,
            b[i].density,
            ts,
        )
    } by {
        if i < n {
            assert(first_of(a, i));
            assert(a[i] == b[i]);
        } else {
            // No earlier record of that name counts, so the name is new.
            if was.contains_key(c) {
                let j = choose|j: int| first_of(a, j) && (#[trigger] a[j]).comm@ == c;
                assert(b[j].counts() && b[j].comm@ == c);
            }
        }
    }
    assert forall|k: Seq<char>| #[trigger]
        now.contains_key(k) && !start.contains_key(k) implies exists|i: int|
        first_of(b, i) && (#[trigger] b[i]).comm@ == k by {
        if was.contains_key(k) {
            let i = choose|i: int| first_of(a, i) && (#[trigger] a[i]).comm@ == k;
            assert(first_of(b, i) && b[i].comm@ == k);
        } else {
            assert(k == c && recs[n].counts());
            assert(first_of(b, n)) by {
                assert forall|j: int| 0 <= j < n && (#[trigger] b[j]).counts() implies b[j].comm@
                    != b[n].comm@ by {
                    if b[j].comm@ == c {
                        lemma_first_exists(a, j);
                        let i = choose|i: int| first_of(a, i) && (#[trigger] a[i]).comm@ == c;
                        assert(was.contains_key(c));
                    }
                }
            }
            assert(b[n].comm@ == k);
        }
    }
}

/// A record that counts has a first one of its name.
proof fn lemma_first_exists(recs: Seq<Record>, j: int)
    requires
        0 <= j < recs.len(),
        recs[j].counts(),
    ensures
        exists|i: int| first_of(recs, i) && (#[trigger] recs[i]).comm@ == recs[j].comm@,
    decreases j,
{
    if !first_of(recs, j) {
        let k = choose|k: int|
            0 <= k < j && (#[trigger] recs[k]).counts() && recs[k].comm@ == recs[j].comm@;
        lemma_first_exists(recs, k);
        let i = choose|i: int| first_of(recs, i) && (#[trigger] recs[i]).comm@ == recs[k].comm@;
        assert(first_of(recs, i) && recs[i].comm@ == recs[j].comm@);
    } else {
        assert(recs[j].comm@ == recs[j].comm@);
    }
}

// ---------------------------------------------------------------------------
// What is kept
// ---------------------------------------------------------------------------

/// Whether a kept row tells what a state holds.
pub open spec fn tells(k: KeptFields, s: ProcState) -> bool {
    k.comm == s.comm@ && k.ema == s.gpu_rate_ema && k.uid == s.uid
}

/// Whether a kept row tells what some state holds that is worth keeping.
spec fn told_of(k: KeptFields, rows: Seq<ProcState>) -> bool {
    exists|i: int|
        0 <= i < rows.len() && #[trigger] tells(k, rows[i]) && worth_keeping(rows[i].gpu_rate_ema)
}

proof fn lemma_kept(rows: Seq<ProcState>)
    ensures
        kept_of(rows).len() <= rows.len(),
        forall|k: int|
            0 <= k < kept_of(rows).len() ==> told_of(#[trigger] kept_of(rows)[k], rows),
        forall|i: int|
            0 <= i < rows.len() && worth_keeping((#[trigger] rows[i]).gpu_rate_ema)
                ==> exists|k: int|
                0 <= k < kept_of(rows).len() && tells(#[trigger] kept_of(rows)[k], rows[i]),
    decreases rows.len(),
{
    if rows.len() > 0 {
        let less = rows.drop_last();
        lemma_kept(less);
        let all = kept_of(rows);
        let front = kept_of(less);
        let last = rows.len() - 1;
        assert forall|k: int| 0 <= k < all.len() implies told_of(#[trigger] all[k], rows) by {
            if k < front.len() {
                assert(told_of(front[k], less));
                let i = choose|i: int|
                    0 <= i < less.len() && #[trigger] tells(front[k], less[i]) && worth_keeping(
                        less[i].gpu_rate_ema,
                    );
                assert(tells(all[k], rows[i]));
            } else {
                assert(tells(all[k], rows[last]));
            }
        }
        assert forall|i: int|
            0 <= i < rows.len() && worth_keeping((#[trigger] rows[i]).gpu_rate_ema) implies exists|
            k: int,
        |
            0 <= k < all.len() && tells(#[trigger] all[k], rows[i]) by {
            if i < last {
                assert(less[i] == rows[i]);
                let k = choose|k: int|
                    0 <= k < front.len() && tells(#[trigger] front[k], less[i]);
                assert(tells(all[k], rows[i]));
            } else {
                assert(tells(all[all.len() - 1], rows[i]));
            }
        }
    }
}

/// A kept row tells what a state holds that is worth keeping.
pub proof fn lemma_kept_is_known(t: Table, by: Seq<usize>, i: int)
    requires
        t.wf(),
        order::is_order(kept_keys(kept_of(t.rows())), by),
        0 <= i < by.len(),
    ensures
        ({
            let k = arranged(kept_of(t.rows()), by)[i];
            &&& t@.contains_key(k.comm)
            &&& tells(k, t@[k.comm])
            &&& worth_keeping(k.ema)
        }),
{
    let rows = t.rows();
    let kept = kept_of(rows);
    lemma_kept(rows);
    assert(by[i] < kept_keys(kept).len());
    let k = by[i] as int;
    assert(told_of(kept[k], rows));
    let j = choose|j: int|
        0 <= j < rows.len() && #[trigger] tells(kept[k], rows[j]) && worth_keeping(
            rows[j].gpu_rate_ema,
        );
    t.lemma_row(j);
}

/// A name is kept for the next run if and only if its share is worth it, and
/// then its row tells its share and its owner.
pub proof fn law_kept_is_what_was_learned(t: Table, by: Seq<usize>, c: Seq<char>)
    requires
        t.wf(),
        order::is_order(kept_keys(kept_of(t.rows())), by),
        t@.contains_key(c),
    ensures
        worth_keeping(t@[c].gpu_rate_ema) <==> exists|i: int|
            0 <= i < by.len() && (#[trigger] arranged(kept_of(t.rows()), by)[i]).comm == c,
        forall|i: int|
            0 <= i < by.len() && (#[trigger] arranged(kept_of(t.rows()), by)[i]).comm == c
                ==> tells(arranged(kept_of(t.rows()), by)[i], t@[c]),
{
    let rows = t.rows();
    let kept = kept_of(rows);
    let out = arranged(kept, by);
    lemma_kept(rows);
    let p = t.lemma_entry(c);
    if worth_keeping(t@[c].gpu_rate_ema) {
        assert(worth_keeping(rows[p].gpu_rate_ema));
        let k = choose|k: int| 0 <= k < kept.len() && tells(#[trigger] kept[k], rows[p]);
        assert(kept_keys(kept).len() == kept.len());
        assert(rows.len() == t.states.len());
        assert(by.contains(k as usize));
        let i = choose|i: int| 0 <= i < by.len() && by[i] == k as usize;
        assert(out[i].comm == c);
    }
    assert forall|i: int| 0 <= i < by.len() && (#[trigger] out[i]).comm == c implies tells(
        out[i],
        t@[c],
    ) && worth_keeping(t@[c].gpu_rate_ema) by {
        lemma_kept_is_known(t, by, i);
    }
}

/// What was saved in one run is what the next one starts from: it knows the
/// names whose shares were kept, no others, each with the owner that was saved
/// and the share that was read in its row.
pub proof fn law_learning_survives(
    t: Table,
    by: Seq<usize>,
    recs: Seq<Record>,
    next: Map<Seq<char>, ProcState>,
    ts: u64,
    c: Seq<char>,
)
    requires
        t.wf(),
        order::is_order(kept_keys(kept_of(t.rows())), by),
        recs.len() == by.len(),
        forall|i: int|
            0 <= i < recs.len() ==> {
                &&& (#[trigger] recs[i]).counts()
                &&& recs[i].comm@ == arranged(kept_of(t.rows()), by)[i].comm
                &&& recs[i].uid == arranged(kept_of(t.rows()), by)[i].uid
            },
        restored(Map::empty(), next, recs, ts),
    ensures
        next.contains_key(c) <==> t@.contains_key(c) && worth_keeping(t@[c].gpu_rate_ema),
        next.contains_key(c) ==> {
            &&& next[c].uid == t@[c].uid
            &&& exists|i: int|
                0 <= i < recs.len() && (#[trigger] recs[i]).comm@ == c && recs[i].ema == Some(
                    next[c].gpu_rate_ema,
                )
        },
{
    let rows = t.rows();
    let kept = kept_of(rows);
    let out = arranged(kept, by);
    lemma_kept(rows);
    if next.contains_key(c) {
        let i = choose|i: int| first_of(recs, i) && (#[trigger] recs[i]).comm@ == c;
        assert(recs[i].comm@ == out[i].comm);
        assert(by[i] < kept_keys(kept).len());
        assert(told_of(kept[by[i] as int], rows));
        let j = choose|j: int|
            0 <= j < rows.len() && #[trigger] tells(kept[by[i] as int], rows[j]) && worth_keeping(
                rows[j].gpu_rate_ema,
            );
        t.lemma_row(j);
        assert(state::is_learned(
            next[c],
            c,
            recs[i].uid,
            recs[i].ema->0,
            recs[i].x_pos,
            recs[i].density,
            ts,
        ));
    }
    if t@.contains_key(c) && worth_keeping(t@[c].gpu_rate_ema) {
        law_kept_is_what_was_learned(t, by, c);
        let i = choose|i: int| 0 <= i < by.len() && (#[trigger] out[i]).comm == c;
        assert(recs[i].comm@ == c);
        lemma_first_exists(recs, i);
        let k = choose|k: int| first_of(recs, k) && (#[trigger] recs[k]).comm@ == recs[i].comm@;
        assert(next.contains_key(recs[k].comm@));
    }
}

/// A place is told of if and only if the file there is out of date.
pub proof fn lemma_stale_places(
    known: Map<Seq<char>, ProcState>,
    files: Seq<String>,
    now: u64,
    i: int,
)
    requires
        0 <= i < files.len() <= usize::MAX,
    ensures
        stale_places(known, files, now).contains(i as usize) <==> is_stale(known, files[i]@, now),
    decreases files.len(),
{
    let last = files.len() - 1;
    let less = files.drop_last();
    let front = stale_places(known, less, now);
    let all = stale_places(known, files, now);
    if i < last {
        lemma_stale_places(known, less, now, i);
        assert(less[i] == files[i]);
        if front.contains(i as usize) {
            let k = choose|k: int| 0 <= k < front.len() && front[k] == i as usize;
            assert(all[k] == i as usize);
        }
        if all.contains(i as usize) {
            let k = choose|k: int| 0 <= k < all.len() && all[k] == i as usize;
            assert(front[k] == i as usize);
        }
    } else {
        lemma_stale_below(known, less, now);
        if is_stale(known, files[i]@, now) {
            assert(all[front.len() as int] == i as usize);
        } else if all.contains(i as usize) {
            let k = choose|k: int| 0 <= k < all.len() && all[k] == i as usize;
            assert(front[k] < less.len());
        }
    }
}

/// The places that are told of are places of files.
pub proof fn lemma_stale_below(known: Map<Seq<char>, ProcState>, files: Seq<String>, now: u64)
    requires
        files.len() <= usize::MAX,
    ensures
        forall|k: int|
            0 <= k < stale_places(known, files, now).len() ==> (#[trigger] stale_places(
                known,
                files,
                now,
            )[k]) < files.len(),
    decreases files.len(),
{
    if files.len() > 0 {
        let less = files.drop_last();
        let front = stale_places(known, less, now);
        let all = stale_places(known, files, now);
        lemma_stale_below(known, less, now);
        assert forall|k: int| 0 <= k < all.len() implies (#[trigger] all[k]) < files.len() by {
            if k < front.len() {
                assert(all[k] == front[k]);
            }
        }
    }
}

/// A name that is its own file name does not lose its score while it is known,
/// unless nothing changed for a while and there is hardly a share left. A name
/// that lies under another file name, such as one with a blank in it, may lose
/// its score at any time: nobody is known by the name of that file.
pub proof fn law_used_scores_stay(
    known: Map<Seq<char>, ProcState>,
    name: Seq<char>,
    files: Seq<String>,
    now: u64,
    i: int,
)
    requires
        known.contains_key(name),
        score::sanitized(name) == name,
        now <= known[name].last_updated_ts + SCORE_MAX_AGE_S || !known[name].gpu_rate_ema.below(
            Scalar { bits: KEEP_BITS },
        ),
        0 <= i < files.len() <= usize::MAX,
        files[i]@ == score::sanitized(name),
    ensures
        !is_stale(known, score::sanitized(name), now),
        !stale_places(known, files, now).contains(i as usize),
{
    lemma_stale_places(known, files, now, i);
}

// ---------------------------------------------------------------------------
// Laws of the table
// ---------------------------------------------------------------------------

/// A share is worth keeping if and only if it is larger than 0.01.
pub proof fn law_worth_keeping(ema: Scalar)
    ensures
        worth_keeping(ema) <==> (Scalar { bits: 0x3F84_7AE1_47AE_147B }).below(ema),
{
}

/// What is kept are the names with a share larger than 0.01, each with its share
/// and its owner, in the order of the states.
pub proof fn law_kept_are_the_larger_shares(rows: Seq<ProcState>)
    ensures
        kept_of(rows) == rows.filter(
            |s: ProcState| (Scalar { bits: 0x3F84_7AE1_47AE_147B }).below(s.gpu_rate_ema),
        ).map_values(
            |s: ProcState| KeptFields { comm: s.comm@, ema: s.gpu_rate_ema, uid: s.uid },
        ),
    decreases rows.len(),
{
    reveal(Seq::filter);
    let p = |s: ProcState| (Scalar { bits: 0x3F84_7AE1_47AE_147B }).below(s.gpu_rate_ema);
    let f = |s: ProcState| KeptFields { comm: s.comm@, ema: s.gpu_rate_ema, uid: s.uid };
    if rows.len() == 0 {
        assert(kept_of(rows) =~= rows.filter(p).map_values(f));
    } else {
        law_kept_are_the_larger_shares(rows.drop_last());
        assert(kept_of(rows) =~= rows.filter(p).map_values(f));
    }
}

/// In the file the shares fall: no row has a larger share than one before it, and
/// rows of equal shares stand in the order of the states.
pub proof fn law_saved_shares_fall(items: Seq<KeptFields>, by: Seq<usize>, i: int, j: int)
    requires
        order::is_order(kept_keys(items), by),
        0 <= i < j < by.len(),
    ensures
        arranged(items, by).len() == items.len(),
        arranged(items, by)[i] == items[by[i] as int],
        arranged(items, by)[i].ema.rank() >= arranged(items, by)[j].ema.rank(),
        arranged(items, by)[i].ema.rank() == arranged(items, by)[j].ema.rank() ==> by[i] < by[j],
{
    order::law_keys_fall(kept_keys(items), by, i, j);
}

/// How many names are on the GPU is how many states say so.
pub proof fn law_on_the_gpu(rows: Seq<ProcState>)
    ensures
        on_gpu(rows) == rows.filter(|s: ProcState| s.use_gpu).len(),
    decreases rows.len(),
{
    reveal(Seq::filter);
    if rows.len() > 0 {
        law_on_the_gpu(rows.drop_last());
    }
}

/// How many records were taken over is how many hold a share larger than 0.01.
pub proof fn law_counting(recs: Seq<Record>)
    ensures
        counting(recs) == recs.filter(
            |r: Record|
                r.ema is Some && (Scalar { bits: 0x3F84_7AE1_47AE_147B }).below(r.ema->0),
        ).len(),
    decreases recs.len(),
{
    reveal(Seq::filter);
    if recs.len() > 0 {
        law_counting(recs.drop_last());
    }
}

/// Taking over records leaves every known name as it is. A name that was not known
/// is known afterwards if and only if a record of it holds a share larger than
/// 0.01, and its state is that of the first such record.
pub proof fn law_records_are_taken_over(
    was: Map<Seq<char>, ProcState>,
    now: Map<Seq<char>, ProcState>,
    recs: Seq<Record>,
    ts: u64,
    i: int,
)
    requires
        restored(was, now, recs, ts),
        0 <= i < recs.len(),
        recs[i].ema is Some,
        (Scalar { bits: 0x3F84_7AE1_47AE_147B }).below(recs[i].ema->0),
        forall|j: int|
            0 <= j < i && (#[trigger] recs[j]).comm@ == recs[i].comm@ ==> recs[j].ema is None || !(
            Scalar { bits: 0x3F84_7AE1_47AE_147B }).below(recs[j].ema->0),
    ensures
        now.contains_key(recs[i].comm@),
        was.contains_key(recs[i].comm@) ==> now[recs[i].comm@] == was[recs[i].comm@],
        !was.contains_key(recs[i].comm@) ==> {
            let s = now[recs[i].comm@];
            &&& s.comm@ == recs[i].comm@
            &&& s.uid == recs[i].uid
            &&& s.gpu_rate_ema == recs[i].ema->0
            &&& s.x_pos == recs[i].x_pos
            &&& s.density == recs[i].density
            &&& s.last_updated_ts == ts
            &&& s.use_gpu <==> (Scalar { bits: 0x3FE0_0000_0000_0000 }).below(s.x_pos.val())
        },
{
    assert(first_of(recs, i)) by {
        assert forall|j: int| 0 <= j < i && (#[trigger] recs[j]).counts() implies recs[j].comm@
            != recs[i].comm@ by {}
    }
}

/// Taking over records makes nobody known of whom there is no record with a share
/// larger than 0.01, and makes nobody unknown.
pub proof fn law_records_add_nobody_else(
    was: Map<Seq<char>, ProcState>,
    now: Map<Seq<char>, ProcState>,
    recs: Seq<Record>,
    ts: u64,
    c: Seq<char>,
)
    requires
        restored(was, now, recs, ts),
    ensures
        was.contains_key(c) ==> now.contains_key(c) && now[c] == was[c],
        now.contains_key(c) && !was.contains_key(c) ==> exists|i: int|
            0 <= i < recs.len() && (#[trigger] recs[i]).comm@ == c && recs[i].ema is Some && (
            Scalar { bits: 0x3F84_7AE1_47AE_147B }).below(recs[i].ema->0),
{
    if now.contains_key(c) && !was.contains_key(c) {
        let i = choose|i: int| first_of(recs, i) && (#[trigger] recs[i]).comm@ == c;
        assert(recs[i].counts());
    }
}

/// Meeting the names of a scan makes exactly these known, besides those that were,
/// leaves those as they were, and starts the new ones with no share.
pub proof fn law_names_become_known(
    was: Map<Seq<char>, ProcState>,
    now: Map<Seq<char>, ProcState>,
    seen: Map<Seq<char>, u32>,
    start: StartDensity,
    ts: u64,
    c: Seq<char>,
)
    requires
        enrolled(was, now, seen, start, ts),
    ensures
        now.contains_key(c) <==> was.contains_key(c) || seen.contains_key(c),
        was.contains_key(c) ==> now[c] == was[c],
        seen.contains_key(c) && !was.contains_key(c) ==> {
            &&& now[c].comm@ == c
            &&& now[c].uid == seen[c]
            &&& now[c].gpu_rate_ema.bits == 0
            &&& !now[c].use_gpu
            &&& now[c].last_updated_ts == ts
        },
{
}

/// A score file is out of date if nobody goes by its name, or if the one who does
/// has not changed for more than 300 seconds and has a share smaller than 0.01;
/// otherwise it is not.
pub proof fn law_stale_scores(known: Map<Seq<char>, ProcState>, name: Seq<char>, now: u64)
    ensures
        !known.contains_key(name) ==> is_stale(known, name, now),
        known.contains_key(name) ==> (is_stale(known, name, now) <==> now
            > known[name].last_updated_ts + 300 && known[name].gpu_rate_ema.below(
            Scalar { bits: 0x3F84_7AE1_47AE_147B },
        )),
{
}

/// The files that are to be removed are told of once each, in their order.
pub proof fn law_stale_places_rise(
    known: Map<Seq<char>, ProcState>,
    files: Seq<String>,
    now: u64,
)
    requires
        files.len() <= usize::MAX,
    ensures
        forall|i: int, j: int|
            0 <= i < j < stale_places(known, files, now).len() ==> #[trigger] stale_places(
                known,
                files,
                now,
            )[i] < #[trigger] stale_places(known, files, now)[j],
        forall|i: int|
            0 <= i < files.len() ==> (#[trigger] stale_places(known, files, now).contains(
                i as usize,
            ) <==> is_stale(known, files[i]@, now)),
    decreases files.len(),
{
    assert forall|i: int| 0 <= i < files.len() implies (#[trigger] stale_places(
        known,
        files,
        now,
    ).contains(i as usize) <==> is_stale(known, files[i]@, now)) by {
        lemma_stale_places(known, files, now, i);
    }
    if files.len() > 0 {
        let less = files.drop_last();
        law_stale_places_rise(known, less, now);
        lemma_stale_below(known, less, now);
        let (front, all) = (stale_places(known, less, now), stale_places(known, files, now));
        assert forall|i: int, j: int| 0 <= i < j < all.len() implies #[trigger] all[i]
            < #[trigger] all[j] by {
            if j < front.len() {
                assert(all[i] == front[i] && all[j] == front[j]);
            } else {
                assert(all[i] == front[i]);
                assert(front[i] < less.len());
            }
        }
    }
}

} // verus!
