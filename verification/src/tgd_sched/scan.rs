//! The processes that a scan of `/proc` finds.

use crate::procfs;
use crate::procfs::DEFAULT_UID;
use crate::scalar::Scalar;
use crate::score;
use crate::text;
use vstd::prelude::*;

verus! {

/// The number of a process.
pub type Pid = i32;

/// What was read of an entry of `/proc`: its name, its texts as far as they
/// could be read, and the learned GPU share of the process, if there is one and
/// it is a number.
#[derive(Debug)]
pub struct ProcFiles {
    pub name: String,
    pub comm: Option<String>,
    pub status: Option<String>,
    pub stat: Option<String>,
    pub io: Option<String>,
    pub gpu_ema: Option<Scalar>,
}

/// A process.
#[derive(Debug)]
pub struct ProcEntry {
    pub pid: Pid,
    pub comm: String,
    pub uid: u32,
    pub cpu_ticks: u64,
    pub syscr: u64,
    pub gpu_ema: Scalar,
}

/// A process, by what is known of it.
pub struct EntryFields {
    pub pid: Pid,
    pub comm: Seq<char>,
    pub uid: u32,
    pub cpu_ticks: u64,
    pub syscr: u64,
    pub gpu_ema: Scalar,
}

impl View for ProcEntry {
    type V = EntryFields;

    open spec fn view(&self) -> EntryFields {
        EntryFields {
            pid: self.pid,
            comm: self.comm@,
            uid: self.uid,
            cpu_ticks: self.cpu_ticks,
            syscr: self.syscr,
            gpu_ema: self.gpu_ema,
        }
    }
}

pub open spec fn entry_fields(v: Seq<ProcEntry>) -> Seq<EntryFields> {
    v.map_values(|e: ProcEntry| e@)
}

impl ProcFiles {
    /// Whether the entry is a process with a number and a name.
    pub open spec fn counts(self) -> bool {
        &&& text::all_digits(self.name@)
        &&& text::parse_unsigned(self.name@, Pid::MAX as nat) is Some
        &&& self.comm is Some
    }

    /// Whether its ticks can be read.
    pub open spec fn sound(self) -> bool {
        self.stat is Some ==> procfs::stat_sound(self.stat->0@)
    }

    /// The process that it is.
    pub open spec fn entry(self) -> EntryFields {
        EntryFields {
            pid: text::parse_unsigned(self.name@, Pid::MAX as nat)->0 as Pid,
            comm: text::trim(self.comm->0@),
            uid: if self.status is Some && procfs::uid_in(self.status->0@) is Some {
                procfs::uid_in(self.status->0@)->0 as u32
            } else {
                DEFAULT_UID
            },
            cpu_ticks: if self.stat is Some {
                procfs::ticks_in(self.stat->0@) as u64
            } else {
                0
            },
            syscr: if self.io is Some {
                procfs::syscr_in(self.io->0@) as u64
            } else {
                0
            },
            gpu_ema: if self.gpu_ema is Some {
                self.gpu_ema->0
            } else {
                Scalar { bits: 0 }
            },
        }
    }
}

/// The processes among some entries, in their order.
pub open spec fn entries_of(files: Seq<ProcFiles>) -> Seq<EntryFields>
    decreases files.len(),
{
    if files.len() == 0 {
        Seq::empty()
    } else {
        let front = entries_of(files.drop_last());
        if files.last().counts() {
            front.push(files.last().entry())
        } else {
            front
        }
    }
}

/// The text in an optional string.
fn text_in(s: &Option<String>) -> (r: Option<&str>)
    ensures
        r is Some <==> s is Some,
        r matches Some(t) ==> t@ == s->0@,
{
    match s {
        Some(t) => Some(t.as_str()),
        None => None,
    }
}

/// The process that an entry of `/proc` is.
fn entry_in(f: &ProcFiles) -> (r: Option<ProcEntry>)
    requires
        f.counts() ==> f.sound(),
    ensures
        r is Some <==> f.counts(),
        r matches Some(e) ==> e@ == f.entry(),
{
    if !procfs::is_pid_name(f.name.as_str()) {
        return None;
    }
    let digits = text::chars_of(f.name.as_str());
    let pid: Pid = match text::parse_number(digits.as_slice(), i32::MAX as u64) {
        Some(n) => n as i32,
        None => {
            return None;
        },
    };
    match &f.comm {
        None => None,
        Some(raw) => {
            let uid: u32 = match procfs::read_uid(text_in(&f.status)) {
                Some(u) => u,
                None => DEFAULT_UID,
            };
            let gpu_ema: Scalar = match f.gpu_ema {
                Some(x) => x,
                None => Scalar { bits: 0 },
            };
            Some(
                ProcEntry {
                    pid,
                    comm: procfs::comm_name(raw.as_str()),
                    uid,
                    cpu_ticks: procfs::read_cpu_ticks(text_in(&f.stat)),
                    syscr: procfs::read_syscr(text_in(&f.io)),
                    gpu_ema,
                },
            )
        },
    }
}

/// The processes among the entries of `/proc`, in their order.
pub fn scan_proc_once(files: &Vec<ProcFiles>) -> (r: Vec<ProcEntry>)
    requires
        forall|i: int|
            0 <= i < files@.len() && (#[trigger] files@[i]).counts() ==> files@[i].sound(),
    ensures
        entry_fields(r@) == entries_of(files@),
{
    let mut out: Vec<ProcEntry> = Vec::new();
    let mut i: usize = 0;
    assert(files@.take(0) =~= Seq::<ProcFiles>::empty());
    assert(entry_fields(out@) =~= Seq::<EntryFields>::empty());
    while i < files.len()
        invariant
            i <= files@.len(),
            forall|k: int|
                0 <= k < files@.len() && (#[trigger] files@[k]).counts() ==> files@[k].sound(),
            entry_fields(out@) == entries_of(files@.take(i as int)),
        decreases files.len() - i,
    {
        let ghost done = entry_fields(out@);
        assert(files@.take(i + 1).drop_last() =~= files@.take(i as int));
        match entry_in(&files[i]) {
            Some(e) => {
                out.push(e);
                assert(entry_fields(out@) =~= done.push(e@));
            },
            None => {},
        }
        i = i + 1;
    }
    assert(files@.take(i as int) =~= files@);
    out
}

/// The learned GPU share that is read of a score file, if there is such a file:
/// `read` is how a text becomes a number.
pub open spec fn share_read(
    content: Option<Seq<char>>,
    read: spec_fn(Seq<char>) -> Option<Scalar>,
) -> Option<Scalar> {
    match content {
        Some(s) => match score::ema_text_in(s) {
            Some(t) => read(t),
            None => None,
        },
        None => None,
    }
}

/// The GPU share that was written last for a process is the one that the CPU
/// scheduler goes by, as the file gives it back: `write` is how a number becomes
/// text. Where there is no score, or none that can be read, it goes by zero.
pub proof fn law_gpu_share_arrives(
    f: ProcFiles,
    content: Option<Seq<char>>,
    use_gpu: bool,
    x: Scalar,
    density: Scalar,
    gpu_ema: Scalar,
    sigma: Scalar,
    ts: nat,
    write: spec_fn(Scalar) -> Seq<char>,
    read: spec_fn(Seq<char>) -> Option<Scalar>,
)
    requires
        f.gpu_ema == share_read(content, read),
        !write(x).contains('\n'),
        !write(density).contains('\n'),
        !write(gpu_ema).contains('\n'),
    ensures
        content == Some(
            score::score_of(use_gpu, write(x), write(density), write(gpu_ema), write(sigma), ts),
        ) ==> f.entry().gpu_ema == (match read(text::trim(write(gpu_ema))) {
            Some(n) => n,
            None => Scalar { bits: 0 },
        }),
        share_read(content, read) is None ==> f.entry().gpu_ema.bits == 0,
{
    score::law_score_is_read_back(
        use_gpu,
        write(x),
        write(density),
        write(gpu_ema),
        write(sigma),
        ts,
    );
}

/// An entry counts if its name is digits that make a number of at most 2147483647
/// and it has a name as a process; every such entry gives a process, in their
/// order.
pub proof fn law_entries_that_count(files: Seq<ProcFiles>)
    ensures
        entries_of(files) == files.filter(|f: ProcFiles| f.counts()).map_values(
            |f: ProcFiles| f.entry(),
        ),
        forall|i: int|
            0 <= i < files.len() ==> ((#[trigger] files[i]).counts() <==> {
                &&& files[i].name@.len() > 0
                &&& forall|k: int|
                    0 <= k < files[i].name@.len() ==> '0' <= #[trigger] files[i].name@[k] <= '9'
                &&& text::decimal(files[i].name@) <= 2147483647
                &&& files[i].comm is Some
            }),
    decreases files.len(),
{
    reveal(Seq::filter);
    let p = |f: ProcFiles| f.counts();
    let e = |f: ProcFiles| f.entry();
    if files.len() > 0 {
        law_entries_that_count(files.drop_last());
    }
    assert(entries_of(files) =~= files.filter(p).map_values(e));
    assert forall|i: int| 0 <= i < files.len() implies ((#[trigger] files[i]).counts() <==> {
        &&& files[i].name@.len() > 0
        &&& forall|k: int|
            0 <= k < files[i].name@.len() ==> '0' <= #[trigger] files[i].name@[k] <= '9'
        &&& text::decimal(files[i].name@) <= 2147483647
        &&& files[i].comm is Some
    }) by {
        let name = files[i].name@;
        text::law_numbers_are_digits(name, 2147483647);
        if files[i].counts() {
            assert forall|k: int| 0 <= k < name.len() implies '0' <= #[trigger] name[k] <= '9' by {
                assert(text::is_digit(name[k]));
            }
        } else if name.len() > 0 && (forall|k: int|
            0 <= k < name.len() ==> '0' <= #[trigger] name[k] <= '9') {
            assert(text::all_digits(name));
        }
    }
}

/// What is told of a process: the number that its entry is named by, its name
/// without white space round it, the owner in its `status` text or else 1000, the
/// ticks in its `stat` text and the read calls in its `io` text or else none, and
/// its GPU share or else zero.
pub proof fn law_entries_tell(f: ProcFiles)
    requires
        f.counts(),
        f.sound(),
    ensures
        f.entry().pid == text::decimal(f.name@),
        f.entry().comm == text::trim(f.comm->0@),
        f.status is None ==> f.entry().uid == 1000,
        f.status is Some && procfs::uid_in(f.status->0@) is None ==> f.entry().uid == 1000,
        f.status is Some && procfs::uid_in(f.status->0@) is Some ==> f.entry().uid
            == procfs::uid_in(f.status->0@)->0,
        f.stat is None ==> f.entry().cpu_ticks == 0,
        f.stat is Some ==> f.entry().cpu_ticks == procfs::ticks_in(f.stat->0@),
        f.io is None ==> f.entry().syscr == 0,
        f.io is Some ==> f.entry().syscr == procfs::syscr_in(f.io->0@),
        f.gpu_ema is None ==> f.entry().gpu_ema.bits == 0,
        f.gpu_ema is Some ==> f.entry().gpu_ema == f.gpu_ema->0,
{
    let name = f.name@;
    assert(text::is_digit(name[0]));
    text::law_numbers_are_digits(name, 2147483647);
    assert forall|k: int| 0 <= k < name.len() implies '0' <= #[trigger] name[k] <= '9' by {
        assert(text::is_digit(name[k]));
    }
}

} // verus!
