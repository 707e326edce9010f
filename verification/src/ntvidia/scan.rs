//! Which process names there are, and which of them hold the GPU open.

use crate::procfs;
use crate::procfs::DEFAULT_UID;
use crate::text;
use vstd::prelude::*;

verus! {

/// What the path of an open GPU device holds.
pub const GPU_DEVICE: &'static str = "/dev/nvidia";

/// What was read of an entry of `/proc`: its name, its `comm` and `status`
/// texts as far as they could be read, and what its open files lead to.
#[derive(Debug)]
pub struct ProcFiles {
    pub name: String,
    pub comm: Option<String>,
    pub status: Option<String>,
    pub fd_targets: Vec<String>,
}

impl ProcFiles {
    /// Whether the entry is a process that has a name.
    pub open spec fn counts(self) -> bool {
        text::all_digits(self.name@) && self.comm is Some
    }

    /// The name of the process.
    pub open spec fn called(self) -> Seq<char> {
        text::trim(self.comm->0@)
    }

    /// The owner of the process.
    pub open spec fn owner(self) -> u32 {
        if self.status is Some && procfs::uid_in(self.status->0@) is Some {
            procfs::uid_in(self.status->0@)->0 as u32
        } else {
            DEFAULT_UID
        }
    }

    /// Whether the process holds the GPU open.
    pub open spec fn on_gpu(self) -> bool {
        exists|j: int|
            0 <= j < self.fd_targets@.len() && text::has_part(
                #[trigger] self.fd_targets@[j]@,
                GPU_DEVICE@,
            )
    }
}

/// Process names, each with an owner.
#[derive(Debug)]
pub struct UidTable {
    rows: Vec<(String, u32)>,
}

/// The names of some rows.
pub open spec fn row_names(rows: Seq<(String, u32)>) -> Seq<Seq<char>> {
    rows.map_values(|r: (String, u32)| r.0@)
}

/// The place of a name among some rows.
pub open spec fn row_place(rows: Seq<(String, u32)>, name: Seq<char>) -> int {
    choose|i: int| 0 <= i < rows.len() && (#[trigger] rows[i]).0@ == name
}

impl UidTable {
    /// The rows, in the order in which their names came up.
    pub closed spec fn rows(self) -> Seq<(String, u32)> {
        self.rows@
    }

    /// No name comes up twice.
    pub open spec fn wf(self) -> bool {
        row_names(self.rows()).no_duplicates()
    }

    /// The owner of each name.
    pub open spec fn view(self) -> Map<Seq<char>, u32> {
        Map::new(
            |c: Seq<char>| row_names(self.rows()).contains(c),
            |c: Seq<char>| self.rows()[row_place(self.rows(), c)].1,
        )
    }

    /// A row is an entry of the table.
    pub proof fn lemma_row(self, i: int)
        requires
            self.wf(),
            0 <= i < self.rows().len(),
        ensures
            self@.contains_key(self.rows()[i].0@),
            self@[self.rows()[i].0@] == self.rows()[i].1,
    {
        let rows = self.rows();
        let c = rows[i].0@;
        assert(row_names(rows)[i] == c);
        let p = row_place(rows, c);
        assert(row_names(rows)[p] == c);
    }

    /// The table with no name in it.
    pub fn new() -> (r: UidTable)
        ensures
            r.wf(),
            r@ == Map::<Seq<char>, u32>::empty(),
    {
        let r = UidTable { rows: Vec::new() };
        assert(r@ =~= Map::<Seq<char>, u32>::empty());
        r
    }

    /// How many names there are.
    pub fn len(&self) -> (n: usize)
        requires
            self.wf(),
        ensures
            n == self.rows().len(),
            n == self@.dom().len(),
    {
        proof {
            let names = row_names(self.rows());
            names.unique_seq_to_set();
            assert(names.to_set() =~= self@.dom());
        }
        self.rows.len()
    }

    /// Where a name stands.
    fn find(&self, name: &str) -> (r: Option<usize>)
        requires
            self.wf(),
        ensures
            r is Some <==> self@.contains_key(name@),
            r matches Some(i) ==> i < self.rows().len() && self.rows()[i as int].0@ == name@,
    {
        let key: String = name.to_owned();
        let mut i: usize = 0;
        while i < self.rows.len()
            invariant
                i <= self.rows@.len(),
                key@ == name@,
                self.wf(),
                forall|j: int| 0 <= j < i ==> (#[trigger] self.rows@[j]).0@ != name@,
            decreases self.rows.len() - i,
        {
            if self.rows[i].0 == key {
                proof {
                    self.lemma_row(i as int);
                }
                return Some(i);
            }
            i = i + 1;
        }
        assert(!row_names(self.rows()).contains(name@)) by {
            if row_names(self.rows()).contains(name@) {
                let j = choose|j: int|
                    0 <= j < self.rows@.len() && row_names(self.rows())[j] == name@;
                assert(self.rows@[j].0@ == name@);
            }
        }
        None
    }

    /// Whether a name is in the table.
    pub fn contains(&self, name: &str) -> (r: bool)
        requires
            self.wf(),
        ensures
            r == self@.contains_key(name@),
    {
        self.find(name).is_some()
    }

    /// The owner of a name.
    pub fn get(&self, name: &str) -> (r: Option<u32>)
        requires
            self.wf(),
        ensures
            r == (if self@.contains_key(name@) {
                Some(self@[name@])
            } else {
                None
            }),
    {
        match self.find(name) {
            Some(i) => {
                proof {
                    self.lemma_row(i as int);
                }
                Some(self.rows[i].1)
            },
            None => None,
        }
    }

    /// A row, by its place.
    pub fn row(&self, i: usize) -> (r: (&str, u32))
        requires
            self.wf(),
            i < self.rows().len(),
        ensures
            r.0@ == self.rows()[i as int].0@,
            r.1 == self.rows()[i as int].1,
            self@.contains_key(r.0@),
            self@[r.0@] == r.1,
    {
        proof {
            self.lemma_row(i as int);
        }
        (self.rows[i].0.as_str(), self.rows[i].1)
    }

    /// Takes in a process. Of several with one name the largest owner stays.
    pub fn note(&mut self, name: &str, uid: u32)
        requires
            old(self).wf(),
        ensures
            final(self).wf(),
            final(self)@ == old(self)@.insert(
                name@,
                if old(self)@.contains_key(name@) && old(self)@[name@] > uid {
                    old(self)@[name@]
                } else {
                    uid
                },
            ),
    {
        let ghost was = *self;
        match self.find(name) {
            Some(i) => {
                proof {
                    was.lemma_row(i as int);
                }
                if uid > self.rows[i].1 {
                    let key: String = self.rows[i].0.clone();
                    self.rows.set(i, (key, uid));
                }
                proof {
                    assert(row_names(self.rows()) =~= row_names(was.rows()));
                    lemma_same_owners(was, *self, i as int);
                }
            },
            None => {
                self.rows.push((name.to_owned(), uid));
                proof {
                    lemma_one_more(was, *self);
                }
            },
        }
    }
}

/// A change of one owner is a change of one entry.
proof fn lemma_same_owners(was: UidTable, now: UidTable, i: int)
    requires
        was.wf(),
        0 <= i < was.rows().len(),
        row_names(now.rows()) == row_names(was.rows()),
        forall|j: int|
            0 <= j < was.rows().len() && j != i ==> (#[trigger] now.rows()[j]).1
                == was.rows()[j].1,
    ensures
        now.wf(),
        now@ == was@.insert(was.rows()[i].0@, now.rows()[i].1),
{
    let names = row_names(was.rows());
    let c = was.rows()[i].0@;
    assert(now.rows().len() == names.len());
    assert(names[i] == c);
    assert(row_names(now.rows())[i] == now.rows()[i].0@);
    let target = was@.insert(c, now.rows()[i].1);
    assert forall|k: Seq<char>| #[trigger] now@.contains_key(k) implies now@[k] == target[k] by {
        let j = choose|j: int| 0 <= j < names.len() && names[j] == k;
        assert(now.rows()[j].0@ == row_names(now.rows())[j]);
        now.lemma_row(j);
        assert(was.rows()[j].0@ == names[j]);
        was.lemma_row(j);
        if j == i {
        } else {
            assert(k != c);
        }
    }
    assert(now@ =~= target);
}

/// A row more is an entry more.
proof fn lemma_one_more(was: UidTable, now: UidTable)
    requires
        was.wf(),
        now.rows().len() == was.rows().len() + 1,
        forall|j: int| 0 <= j < was.rows().len() ==> now.rows()[j] == was.rows()[j],
        !was@.contains_key(now.rows().last().0@),
    ensures
        now.wf(),
        now@ == was@.insert(now.rows().last().0@, now.rows().last().1),
{
    let n = was.rows().len() as int;
    let c = now.rows()[n].0@;
    let a = row_names(was.rows());
    let b = row_names(now.rows());
    assert(b =~= a.push(c));
    assert(!a.contains(c));
    assert(b.no_duplicates()) by {
        assert forall|i: int, j: int| 0 <= i < b.len() && 0 <= j < b.len() && i != j implies b[i]
            != b[j] by {
            if i < n && j < n {
                assert(a[i] != a[j]);
            } else if i < n {
                assert(a.contains(a[i]));
            } else {
                assert(a.contains(a[j]));
            }
        }
    }
    let target = was@.insert(c, now.rows()[n].1);
    assert forall|k: Seq<char>| now@.contains_key(k) <==> #[trigger] target.contains_key(k) by {
        if k == c {
            assert(b[n] == c);
        } else {
            if b.contains(k) {
                let j = choose|j: int| 0 <= j < b.len() && b[j] == k;
                assert(a[j] == k);
            }
            if a.contains(k) {
                let j = choose|j: int| 0 <= j < a.len() && a[j] == k;
                assert(b[j] == k);
            }
        }
    }
    assert forall|k: Seq<char>| #[trigger] now@.contains_key(k) implies now@[k] == target[k] by {
        let j = choose|j: int| 0 <= j < b.len() && b[j] == k;
        assert(now.rows()[j].0@ == k);
        now.lemma_row(j);
        if j < n {
            was.lemma_row(j);
            assert(a[j] == k);
            assert(k != c);
        }
    }
    assert(now@ =~= target);
}

/// What a scan of `/proc` found.
#[derive(Debug)]
pub struct ProcScanResult {
    pub nvidia_users: UidTable,
    pub all_comms: UidTable,
}

/// Whether `m` tells, of every name that some of the counted processes have,
/// the largest owner among them.
pub open spec fn is_tally(
    m: Map<Seq<char>, u32>,
    files: Seq<ProcFiles>,
    counted: spec_fn(ProcFiles) -> bool,
) -> bool {
    &&& forall|i: int|
        0 <= i < files.len() && counted(#[trigger] files[i]) ==> m.contains_key(files[i].called())
            && files[i].owner() <= m[files[i].called()]
    &&& forall|c: Seq<char>|
        #[trigger] m.contains_key(c) ==> exists|i: int|
            0 <= i < files.len() && counted(#[trigger] files[i]) && files[i].called() == c
                && files[i].owner() == m[c]
}

impl ProcScanResult {
    pub open spec fn wf(self) -> bool {
        self.nvidia_users.wf() && self.all_comms.wf()
    }

    /// How many process names count for the spread: at least one.
    pub fn proc_count(&self) -> (n: usize)
        requires
            self.wf(),
        ensures
            n == (if self.all_comms@.dom().len() > 1 {
                self.all_comms@.dom().len()
            } else {
                1
            }),
    {
        let n: usize = self.all_comms.len();
        if n > 1 {
            n
        } else {
            1
        }
    }
}

/// The processes that have a name.
pub open spec fn any_process() -> spec_fn(ProcFiles) -> bool {
    |f: ProcFiles| f.counts()
}

/// The processes that have a name and hold the GPU open.
pub open spec fn gpu_process() -> spec_fn(ProcFiles) -> bool {
    |f: ProcFiles| f.counts() && f.on_gpu()
}

/// Whether some open file is the GPU.
fn opens_gpu(targets: &Vec<String>) -> (r: bool)
    ensures
        r == exists|j: int|
            0 <= j < targets@.len() && text::has_part(#[trigger] targets@[j]@, GPU_DEVICE@),
{
    let mut j: usize = 0;
    while j < targets.len()
        invariant
            j <= targets@.len(),
            forall|k: int| 0 <= k < j ==> !text::has_part(#[trigger] targets@[k]@, GPU_DEVICE@),
        decreases targets.len() - j,
    {
        if text::contains_part(targets[j].as_str(), GPU_DEVICE) {
            return true;
        }
        j = j + 1;
    }
    false
}

/// A tally takes in a process that counts.
proof fn lemma_counted(
    was: Map<Seq<char>, u32>,
    now: Map<Seq<char>, u32>,
    files: Seq<ProcFiles>,
    n: int,
    counted: spec_fn(ProcFiles) -> bool,
)
    requires
        0 <= n < files.len(),
        is_tally(was, files.take(n), counted),
        counted(files[n]) ==> now == was.insert(
            files[n].called(),
            if was.contains_key(files[n].called()) && was[files[n].called()] > files[n].owner() {
                was[files[n].called()]
            } else {
                files[n].owner()
            },
        ),
        !counted(files[n]) ==> now == was,
    ensures
        is_tally(now, files.take(n + 1), counted),
{
    let a = files.take(n);
    let b = files.take(n + 1);
    assert forall|i: int| 0 <= i < b.len() && counted(#[trigger] b[i]) implies now.contains_key(
        b[i].called(),
    ) && b[i].owner() <= now[b[i].called()] by {
        if i < n {
            assert(counted(a[i]));
        }
    }
    assert forall|c: Seq<char>| #[trigger] now.contains_key(c) implies exists|i: int|
        0 <= i < b.len() && counted(#[trigger] b[i]) && b[i].called() == c && b[i].owner()
            == now[c] by {
        if was.contains_key(c) && now[c] == was[c] {
            let i = choose|i: int|
                0 <= i < a.len() && counted(#[trigger] a[i]) && a[i].called() == c && a[i].owner()
                    == was[c];
            assert(b[i] == a[i]);
        } else {
            assert(counted(b[n]) && b[n].called() == c && b[n].owner() == now[c]);
        }
    }
}

/// Tells which process names there are, and which of them hold the GPU open,
/// each with the largest owner that goes by the name.
pub fn scan_proc(files: &Vec<ProcFiles>) -> (r: ProcScanResult)
    ensures
        r.wf(),
        is_tally(r.all_comms@, files@, any_process()),
        is_tally(r.nvidia_users@, files@, gpu_process()),
{
    let mut all = UidTable::new();
    let mut users = UidTable::new();
    let mut n: usize = 0;
    while n < files.len()
        invariant
            n <= files@.len(),
            all.wf(),
            users.wf(),
            is_tally(all@, files@.take(n as int), any_process()),
            is_tally(users@, files@.take(n as int), gpu_process()),
        decreases files.len() - n,
    {
        let f = &files[n];
        let ghost (all_was, users_was) = (all@, users@);
        if procfs::is_pid_name(f.name.as_str()) {
            match &f.comm {
                None => {},
                Some(raw) => {
                    let comm = procfs::comm_name(raw.as_str());
                    let status: Option<&str> = match &f.status {
                        Some(s) => Some(s.as_str()),
                        None => None,
                    };
                    let uid: u32 = match procfs::read_uid(status) {
                        Some(u) => u,
                        None => DEFAULT_UID,
                    };
                    assert(uid == f.owner());
                    all.note(comm.as_str(), uid);
                    if opens_gpu(&f.fd_targets) {
                        users.note(comm.as_str(), uid);
                    }
                },
            }
        }
        proof {
            lemma_counted(all_was, all@, files@, n as int, any_process());
            lemma_counted(users_was, users@, files@, n as int, gpu_process());
        }
        n = n + 1;
    }
    assert(files@.take(n as int) =~= files@);
    ProcScanResult { nvidia_users: users, all_comms: all }
}

/// A tally is settled by what was counted.
pub proof fn law_tally_is_unique(
    a: Map<Seq<char>, u32>,
    b: Map<Seq<char>, u32>,
    files: Seq<ProcFiles>,
    counted: spec_fn(ProcFiles) -> bool,
)
    requires
        is_tally(a, files, counted),
        is_tally(b, files, counted),
    ensures
        a == b,
{
    assert forall|c: Seq<char>| a.contains_key(c) <==> #[trigger] b.contains_key(c) by {
        lemma_tally_within(a, b, files, counted, c);
        lemma_tally_within(b, a, files, counted, c);
    }
    assert forall|c: Seq<char>| #[trigger] a.contains_key(c) implies a[c] == b[c] by {
        assert(b.contains_key(c));
        lemma_tally_within(a, b, files, counted, c);
        lemma_tally_within(b, a, files, counted, c);
    }
    assert(a =~= b);
}

proof fn lemma_tally_within(
    a: Map<Seq<char>, u32>,
    b: Map<Seq<char>, u32>,
    files: Seq<ProcFiles>,
    counted: spec_fn(ProcFiles) -> bool,
    c: Seq<char>,
)
    requires
        is_tally(a, files, counted),
        is_tally(b, files, counted),
    ensures
        a.contains_key(c) ==> b.contains_key(c) && a[c] <= b[c],
{
    if a.contains_key(c) {
        let i = choose|i: int|
            0 <= i < files.len() && counted(#[trigger] files[i]) && files[i].called() == c
                && files[i].owner() == a[c];
        assert(counted(files[i]));
    }
}

/// Whoever holds the GPU open is among all the processes, and the owner told of
/// it among all is no smaller than the one told of it among those.
pub proof fn law_gpu_users_are_processes(
    all: Map<Seq<char>, u32>,
    users: Map<Seq<char>, u32>,
    files: Seq<ProcFiles>,
    c: Seq<char>,
)
    requires
        is_tally(all, files, any_process()),
        is_tally(users, files, gpu_process()),
        users.contains_key(c),
    ensures
        all.contains_key(c),
        users[c] <= all[c],
{
    let i = choose|i: int|
        0 <= i < files.len() && gpu_process()(#[trigger] files[i]) && files[i].called() == c
            && files[i].owner() == users[c];
    assert(any_process()(files[i]));
}

/// Whether an entry is a process of a name: it goes by digits and its `comm` text
/// is the name, but for white space round it.
pub open spec fn is_process_of(f: ProcFiles, c: Seq<char>) -> bool {
    &&& forall|k: int| 0 <= k < f.name@.len() ==> '0' <= #[trigger] f.name@[k] <= '9'
    &&& f.comm is Some
    &&& text::trim(f.comm->0@) == c
}

/// Whether some open file of an entry leads to a GPU device.
pub open spec fn opens_a_gpu(f: ProcFiles) -> bool {
    exists|j: int|
        0 <= j < f.fd_targets@.len() && text::has_part(
            #[trigger] f.fd_targets@[j]@,
            "/dev/nvidia"@,
        )
}

/// A scan tells of every name that a process has, and of no other, and tells the
/// largest owner among the processes of that name.
pub proof fn law_scan_tells_all_names(m: Map<Seq<char>, u32>, files: Seq<ProcFiles>, c: Seq<char>)
    requires
        is_tally(m, files, any_process()),
    ensures
        m.contains_key(c) <==> exists|i: int|
            0 <= i < files.len() && is_process_of(#[trigger] files[i], c),
        m.contains_key(c) ==> exists|i: int|
            0 <= i < files.len() && is_process_of(#[trigger] files[i], c) && files[i].owner()
                == m[c],
        forall|i: int|
            0 <= i < files.len() && is_process_of(#[trigger] files[i], c) ==> files[i].owner()
                <= m[c],
{
    assert forall|i: int| 0 <= i < files.len() && is_process_of(#[trigger] files[i], c) implies {
        &&& m.contains_key(c)
        &&& files[i].owner() <= m[c]
    } by {
        assert forall|k: int| 0 <= k < files[i].name@.len() implies text::is_digit(
            #[trigger] files[i].name@[k],
        ) by {}
        assert(any_process()(files[i]));
    }
    if m.contains_key(c) {
        let i = choose|i: int|
            0 <= i < files.len() && any_process()(#[trigger] files[i]) && files[i].called() == c
                && files[i].owner() == m[c];
        assert forall|k: int| 0 <= k < files[i].name@.len() implies '0'
            <= #[trigger] files[i].name@[k] <= '9' by {
            assert(text::is_digit(files[i].name@[k]));
        }
        assert(is_process_of(files[i], c));
    }
}

/// A scan tells of every name of which a process has a GPU device open, and of no
/// other, and tells the largest owner among those processes.
pub proof fn law_scan_tells_gpu_names(m: Map<Seq<char>, u32>, files: Seq<ProcFiles>, c: Seq<char>)
    requires
        is_tally(m, files, gpu_process()),
    ensures
        m.contains_key(c) <==> exists|i: int|
            0 <= i < files.len() && is_process_of(#[trigger] files[i], c) && opens_a_gpu(files[i]),
        m.contains_key(c) ==> exists|i: int|
            0 <= i < files.len() && is_process_of(#[trigger] files[i], c) && opens_a_gpu(files[i])
                && files[i].owner() == m[c],
        forall|i: int|
            0 <= i < files.len() && is_process_of(#[trigger] files[i], c) && opens_a_gpu(files[i])
                ==> files[i].owner() <= m[c],
{
    assert forall|i: int|
        0 <= i < files.len() && is_process_of(#[trigger] files[i], c) && opens_a_gpu(
            files[i],
        ) implies {
        &&& m.contains_key(c)
        &&& files[i].owner() <= m[c]
    } by {
        assert forall|k: int| 0 <= k < files[i].name@.len() implies text::is_digit(
            #[trigger] files[i].name@[k],
        ) by {}
        assert(files[i].on_gpu());
        assert(gpu_process()(files[i]));
    }
    if m.contains_key(c) {
        let i = choose|i: int|
            0 <= i < files.len() && gpu_process()(#[trigger] files[i]) && files[i].called() == c
                && files[i].owner() == m[c];
        assert forall|k: int| 0 <= k < files[i].name@.len() implies '0'
            <= #[trigger] files[i].name@[k] <= '9' by {
            assert(text::is_digit(files[i].name@[k]));
        }
        assert(files[i].on_gpu());
        assert(opens_a_gpu(files[i]));
        assert(is_process_of(files[i], c));
    }
}

/// The owner of a process is the one in its `status` text; 1000, if there is no
/// such text or no owner in it.
pub proof fn law_owners(f: ProcFiles)
    ensures
        f.status is None ==> f.owner() == 1000,
        f.status is Some && procfs::uid_in(f.status->0@) is None ==> f.owner() == 1000,
        f.status is Some && procfs::uid_in(f.status->0@) is Some && procfs::uid_in(
            f.status->0@,
        )->0 <= u32::MAX ==> f.owner() == procfs::uid_in(f.status->0@)->0,
{
}

} // verus!
