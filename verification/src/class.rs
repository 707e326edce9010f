//! The classes of processes, and what a class weighs.

use crate::scalar::Scalar;
use crate::text;
use vstd::prelude::*;

verus! {

/// The owner of the system's own processes.
pub const ROOT_UID: u32 = 0;

/// The first owner that is a person.
pub const FIRST_USER_UID: u32 = 1000;

/// The pattern of -0.30.
pub const KERNEL_WEIGHT_BITS: u64 = 0xBFD3_3333_3333_3333;

/// The pattern of -0.10.
pub const SYSTEM_WEIGHT_BITS: u64 = 0xBFB9_9999_9999_999A;

/// The pattern of 0.20.
pub const USER_WEIGHT_BITS: u64 = 0x3FC9_9999_9999_999A;

/// Whose a process is.
#[derive(Clone, Copy, Debug, PartialEq, Eq, Structural)]
pub enum ProcClass {
    Kernel,
    System,
    User,
}

/// Whether a process goes by the name of a kernel thread.
pub open spec fn kernel_thread_name(comm: Seq<char>) -> bool {
    ||| "kworker"@.is_prefix_of(comm)
    ||| "irq"@.is_prefix_of(comm)
    ||| "rcu"@.is_prefix_of(comm)
    ||| "migration"@.is_prefix_of(comm)
    ||| "ksoftirq"@.is_prefix_of(comm)
}

/// The class of an owner.
pub open spec fn uid_class(uid: u32) -> ProcClass {
    if uid == ROOT_UID {
        ProcClass::Kernel
    } else if uid < FIRST_USER_UID {
        ProcClass::System
    } else {
        ProcClass::User
    }
}

/// The class of a process, by its name and its owner.
pub open spec fn comm_class(comm: Seq<char>, uid: u32) -> ProcClass {
    if kernel_thread_name(comm) {
        ProcClass::Kernel
    } else {
        uid_class(uid)
    }
}

impl ProcClass {
    /// How far a class moves a process on the density axis.
    pub open spec fn weight(self) -> Scalar {
        Scalar {
            bits: match self {
                ProcClass::Kernel => KERNEL_WEIGHT_BITS,
                ProcClass::System => SYSTEM_WEIGHT_BITS,
                ProcClass::User => USER_WEIGHT_BITS,
            },
        }
    }

    /// How far the class moves a process on the density axis.
    pub fn x_priv(&self) -> (r: Scalar)
        ensures
            r == self.weight(),
    {
        match self {
            ProcClass::Kernel => Scalar { bits: KERNEL_WEIGHT_BITS },
            ProcClass::System => Scalar { bits: SYSTEM_WEIGHT_BITS },
            ProcClass::User => Scalar { bits: USER_WEIGHT_BITS },
        }
    }

    /// The class of a process, by its owner alone.
    pub fn from_uid(uid: u32) -> (r: Self)
        ensures
            r == uid_class(uid),
    {
        if uid == ROOT_UID {
            ProcClass::Kernel
        } else if uid < FIRST_USER_UID {
            ProcClass::System
        } else {
            ProcClass::User
        }
    }

    /// The class of a process, by its name and its owner.
    pub fn from_comm(comm: &str, uid: u32) -> (r: Self)
        ensures
            r == comm_class(comm@, uid),
    {
        let cs = text::chars_of(comm);
        let c = cs.as_slice();
        if uid == ROOT_UID || text::starts_with(c, "kworker") || text::starts_with(c, "irq")
            || text::starts_with(c, "rcu") || text::starts_with(c, "migration")
            || text::starts_with(c, "ksoftirq") {
            return ProcClass::Kernel;
        }
        ProcClass::from_uid(uid)
    }
}

/// A process is weighed by its owner alone unless it goes by the name of a
/// kernel thread, and then it is never weighed as heavier.
pub proof fn law_name_only_lightens(comm: Seq<char>, uid: u32)
    ensures
        !kernel_thread_name(comm) ==> comm_class(comm, uid) == uid_class(uid),
        comm_class(comm, uid).weight().rank() <= uid_class(uid).weight().rank(),
{
}

/// The more a process belongs to the system, the less it weighs.
pub proof fn law_weight_follows_privilege(a: u32, b: u32)
    requires
        a <= b,
    ensures
        uid_class(a).weight().rank() <= uid_class(b).weight().rank(),
{
}

/// Root's processes are the kernel's, and so is every process whose name starts
/// with one of five texts, whoever owns it. Of the others, those of owners below
/// 1000 are the system's and the rest are users'.
pub proof fn law_classes(comm: Seq<char>, uid: u32)
    ensures
        uid == 0 || "kworker"@.is_prefix_of(comm) || "irq"@.is_prefix_of(comm)
            || "rcu"@.is_prefix_of(comm) || "migration"@.is_prefix_of(comm)
            || "ksoftirq"@.is_prefix_of(comm) ==> comm_class(comm, uid) == ProcClass::Kernel,
        uid != 0 && !"kworker"@.is_prefix_of(comm) && !"irq"@.is_prefix_of(comm)
            && !"rcu"@.is_prefix_of(comm) && !"migration"@.is_prefix_of(comm)
            && !"ksoftirq"@.is_prefix_of(comm) ==> comm_class(comm, uid) == (if uid < 1000 {
            ProcClass::System
        } else {
            ProcClass::User
        }),
        uid_class(uid) == (if uid == 0 {
            ProcClass::Kernel
        } else if uid < 1000 {
            ProcClass::System
        } else {
            ProcClass::User
        }),
{
}

/// A name that no text of the five agrees with in its first two characters is no
/// kernel thread's.
pub proof fn law_other_names_are_no_kernel_threads(comm: Seq<char>)
    requires
        comm.len() >= 2 ==> (comm[0], comm[1]) != ('k', 'w') && (comm[0], comm[1]) != ('i', 'r')
            && (comm[0], comm[1]) != ('r', 'c') && (comm[0], comm[1]) != ('m', 'i') && (
        comm[0],
        comm[1],
        ) != ('k', 's'),
    ensures
        !kernel_thread_name(comm),
{
    reveal_strlit("kworker");
    reveal_strlit("irq");
    reveal_strlit("rcu");
    reveal_strlit("migration");
    reveal_strlit("ksoftirq");
    lemma_prefix_starts("kworker"@, comm);
    lemma_prefix_starts("irq"@, comm);
    lemma_prefix_starts("rcu"@, comm);
    lemma_prefix_starts("migration"@, comm);
    lemma_prefix_starts("ksoftirq"@, comm);
}

proof fn lemma_prefix_starts(p: Seq<char>, s: Seq<char>)
    requires
        p.len() >= 2,
    ensures
        p.is_prefix_of(s) ==> s.len() >= 2 && s[0] == p[0] && s[1] == p[1],
{
    if p.is_prefix_of(s) {
        assert(s.subrange(0, p.len() as int)[0] == s[0]);
        assert(s.subrange(0, p.len() as int)[1] == s[1]);
    }
}

/// What a class weighs: -0.30, -0.10 and 0.20, as binary64 numbers.
pub proof fn law_weights()
    ensures
        ProcClass::Kernel.weight().bits == 0xBFD3_3333_3333_3333,
        ProcClass::System.weight().bits == 0xBFB9_9999_9999_999A,
        ProcClass::User.weight().bits == 0x3FC9_9999_9999_999A,
{
}

} // verus!
