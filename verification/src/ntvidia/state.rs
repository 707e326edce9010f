//! What the GPU scheduler knows of a process.

use crate::class::ProcClass;
use crate::scalar;
use crate::scalar::Position;
use crate::scalar::Scalar;
use crate::scalar::HALF_BITS;
use crate::scalar::MINUS_ONE_BITS;
use crate::scalar::ONE_BITS;
use crate::score;
use vstd::prelude::*;

verus! {

/// The pattern of 0.15, the smallest spread.
pub const SIGMA_MIN_BITS: u64 = 0x3FC3_3333_3333_3333;

/// The pattern of 0.50, the largest spread.
pub const SIGMA_MAX_BITS: u64 = 0x3FE0_0000_0000_0000;

/// The pattern of 0.325, half way between the two.
pub const SIGMA_START_BITS: u64 = 0x3FD4_CCCC_CCCC_CCCD;

/// The position beyond which a process belongs on the GPU: 0.5.
pub const GPU_THRESHOLD_BITS: u64 = HALF_BITS;

/// The pattern of zero, the GPU share of a process that was just seen.
pub const ZERO_BITS: u64 = 0;

/// Where a process of the kernel starts: -0.12.
pub const KERNEL_START_BITS: u64 = 0xBFBE_B851_EB85_1EB8;

/// Where a process of the system starts: -0.04.
pub const SYSTEM_START_BITS: u64 = 0xBFA4_7AE1_47AE_147C;

/// Where a process of a user starts: 0.08.
pub const USER_START_BITS: u64 = 0x3FB4_7AE1_47AE_147C;

/// The spread of the density: a value of `0.15 ..= 0.50`, or not a number.
#[derive(Clone, Copy, Debug)]
pub struct Spread {
    value: Scalar,
}

impl Spread {
    #[verifier::type_invariant]
    spec fn in_range(self) -> bool {
        scalar::within(self.value, Scalar { bits: SIGMA_MIN_BITS }, Scalar { bits: SIGMA_MAX_BITS })
    }

    /// The value of the spread.
    pub closed spec fn val(self) -> Scalar {
        self.value
    }

    /// The spread nearest to a computed one.
    pub fn at(raw: Scalar) -> (r: Spread)
        ensures
            r.val() == raw.clamped(
                Scalar { bits: SIGMA_MIN_BITS },
                Scalar { bits: SIGMA_MAX_BITS },
            ),
    {
        Spread { value: raw.clamp(Scalar { bits: SIGMA_MIN_BITS }, Scalar { bits: SIGMA_MAX_BITS }) }
    }

    pub fn get(self) -> (r: Scalar)
        ensures
            r == self.val(),
            scalar::within(r, Scalar { bits: SIGMA_MIN_BITS }, Scalar { bits: SIGMA_MAX_BITS }),
    {
        proof {
            use_type_invariant(&self);
        }
        self.value
    }
}

/// What is known of the processes of one name.
#[derive(Debug)]
pub struct ProcState {
    pub comm: String,
    pub uid: u32,
    pub x_pos: Position,
    pub density: Scalar,
    pub gpu_rate_ema: Scalar,
    pub use_gpu: bool,
    pub sigma: Spread,
    pub last_updated_ts: u64,
}

/// The densities at the places where processes start, one for each class.
#[derive(Clone, Copy, Debug)]
pub struct StartDensity {
    pub kernel: Scalar,
    pub system: Scalar,
    pub user: Scalar,
}

/// What a new observation makes of the numbers of a process.
#[derive(Clone, Copy, Debug)]
pub struct Step {
    pub gpu_rate_ema: Scalar,
    pub x_pos: Position,
    pub sigma: Spread,
    pub density: Scalar,
}

/// Where a process of a class starts.
pub open spec fn start_of(class: ProcClass) -> Scalar {
    Scalar {
        bits: match class {
            ProcClass::Kernel => KERNEL_START_BITS,
            ProcClass::System => SYSTEM_START_BITS,
            ProcClass::User => USER_START_BITS,
        },
    }
}

/// Where a process of a class starts.
pub fn start_position(class: ProcClass) -> (r: Position)
    ensures
        r.val() == start_of(class),
{
    match class {
        ProcClass::Kernel => Position::at(Scalar { bits: KERNEL_START_BITS }),
        ProcClass::System => Position::at(Scalar { bits: SYSTEM_START_BITS }),
        ProcClass::User => Position::at(Scalar { bits: USER_START_BITS }),
    }
}

/// The spread that a process starts with.
pub fn start_spread() -> (r: Spread)
    ensures
        r.val() == (Scalar { bits: SIGMA_START_BITS }),
{
    Spread::at(Scalar { bits: SIGMA_START_BITS })
}

impl StartDensity {
    /// The density for a class.
    pub open spec fn of(self, class: ProcClass) -> Scalar {
        match class {
            ProcClass::Kernel => self.kernel,
            ProcClass::System => self.system,
            ProcClass::User => self.user,
        }
    }
}

/// Whether a position lies beyond the threshold.
pub open spec fn beyond_threshold(x: Position) -> bool {
    (Scalar { bits: GPU_THRESHOLD_BITS }).below(x.val())
}

/// The class of the processes of a state.
pub open spec fn class_of(s: ProcState) -> ProcClass {
    crate::class::comm_class(s.comm@, s.uid)
}

/// Whether `s` is the state of a process that was just seen: it has used no GPU
/// and does not belong there.
pub open spec fn is_new(
    s: ProcState,
    comm: Seq<char>,
    uid: u32,
    start: StartDensity,
    now: u64,
) -> bool {
    &&& s.comm@ == comm
    &&& s.uid == uid
    &&& s.x_pos.val() == start_of(class_of(s))
    &&& s.density == start.of(class_of(s))
    &&& s.gpu_rate_ema == (Scalar { bits: ZERO_BITS })
    &&& !s.use_gpu
    &&& s.sigma.val() == (Scalar { bits: SIGMA_START_BITS })
    &&& s.last_updated_ts == now
}

/// Whether `s` is the state of a process whose GPU share was learned before.
pub open spec fn is_learned(
    s: ProcState,
    comm: Seq<char>,
    uid: u32,
    ema: Scalar,
    x_pos: Position,
    density: Scalar,
    now: u64,
) -> bool {
    &&& s.comm@ == comm
    &&& s.uid == uid
    &&& s.x_pos == x_pos
    &&& s.density == density
    &&& s.gpu_rate_ema == ema
    &&& s.use_gpu == beyond_threshold(x_pos)
    &&& s.sigma.val() == (Scalar { bits: SIGMA_START_BITS })
    &&& s.last_updated_ts == now
}

/// The state after an observation. Only the processes of users are learned of;
/// the others never belong on the GPU.
pub open spec fn updated(s: ProcState, step: Step, now: u64) -> ProcState {
    if class_of(s) != ProcClass::User {
        ProcState { use_gpu: false, ..s }
    } else {
        ProcState {
            x_pos: step.x_pos,
            density: step.density,
            gpu_rate_ema: step.gpu_rate_ema,
            use_gpu: beyond_threshold(step.x_pos),
            sigma: step.sigma,
            last_updated_ts: now,
            ..s
        }
    }
}

impl ProcState {
    /// The state of a process that was just seen.
    pub fn new(comm: &str, uid: u32, start: &StartDensity, now: u64) -> (r: Self)
        ensures
            is_new(r, comm@, uid, *start, now),
    {
        let class = ProcClass::from_comm(comm, uid);
        let density: Scalar = match class {
            ProcClass::Kernel => start.kernel,
            ProcClass::System => start.system,
            ProcClass::User => start.user,
        };
        ProcState {
            comm: comm.to_owned(),
            uid,
            x_pos: start_position(class),
            density,
            gpu_rate_ema: Scalar { bits: ZERO_BITS },
            use_gpu: false,
            sigma: start_spread(),
            last_updated_ts: now,
        }
    }

    /// The state of a process whose GPU share was learned before. The position
    /// and the density are those that follow from the share.
    pub fn new_with_ema(
        comm: &str,
        uid: u32,
        ema: Scalar,
        x_pos: Position,
        density: Scalar,
        now: u64,
    ) -> (r: Self)
        ensures
            is_learned(r, comm@, uid, ema, x_pos, density, now),
    {
        let threshold: Scalar = Scalar { bits: GPU_THRESHOLD_BITS };
        ProcState {
            comm: comm.to_owned(),
            uid,
            x_pos,
            density,
            gpu_rate_ema: ema,
            use_gpu: threshold.lt(x_pos.get()),
            sigma: start_spread(),
            last_updated_ts: now,
        }
    }

    /// Takes in an observation.
    pub fn update(&mut self, step: &Step, now: u64)
        ensures
            *final(self) == updated(*old(self), *step, now),
            final(self).comm == old(self).comm,
            final(self).uid == old(self).uid,
            class_of(*old(self)) == ProcClass::User ==> {
                &&& final(self).gpu_rate_ema == step.gpu_rate_ema
                &&& final(self).x_pos == step.x_pos
                &&& final(self).sigma == step.sigma
                &&& final(self).density == step.density
                &&& final(self).last_updated_ts == now
            },
    {
        let class = ProcClass::from_comm(self.comm.as_str(), self.uid);
        if class != ProcClass::User {
            self.use_gpu = false;
            return;
        }
        let threshold: Scalar = Scalar { bits: GPU_THRESHOLD_BITS };
        self.gpu_rate_ema = step.gpu_rate_ema;
        self.x_pos = step.x_pos;
        self.sigma = step.sigma;
        self.density = step.density;
        self.use_gpu = threshold.lt(step.x_pos.get());
        self.last_updated_ts = now;
    }
}

/// Where the score of a name is written, and what: the numbers of its state as
/// text, whether it belongs on the GPU, and when it changed last.
pub fn write_score(
    comm: &str,
    s: &ProcState,
    x: &str,
    density: &str,
    gpu_ema: &str,
    sigma: &str,
) -> (r: (String, String))
    ensures
        r.0@ == score::path_of(comm@),
        score::ascii_settled(comm@),
        r.1@ == score::score_of(
            s.use_gpu,
            x@,
            density@,
            gpu_ema@,
            sigma@,
            s.last_updated_ts as nat,
        ),
{
    (
        score::score_path(comm),
        score::score_text(s.use_gpu, x, density, gpu_ema, sigma, s.last_updated_ts),
    )
}

/// After an observation a process belongs on the GPU only if it is a user's and
/// lies beyond the threshold; and a user's process that lies there does.
pub proof fn law_gpu_is_for_users(s: ProcState, step: Step, now: u64)
    ensures
        updated(s, step, now).use_gpu <==> class_of(s) == ProcClass::User && beyond_threshold(
            step.x_pos,
        ),
        class_of(updated(s, step, now)) == class_of(s),
        updated(s, step, now).comm == s.comm,
        updated(s, step, now).uid == s.uid,
{
}

/// Of the processes of the kernel and the system nothing is learned.
pub proof fn law_nothing_is_learned_of_the_system(s: ProcState, step: Step, now: u64)
    requires
        class_of(s) != ProcClass::User,
    ensures
        updated(s, step, now).gpu_rate_ema == s.gpu_rate_ema,
        updated(s, step, now).x_pos == s.x_pos,
        updated(s, step, now).density == s.density,
        updated(s, step, now).sigma == s.sigma,
        updated(s, step, now).last_updated_ts == s.last_updated_ts,
{
}

/// Wherever a process starts, it starts off the GPU.
pub proof fn law_start_is_off_the_gpu(class: ProcClass)
    ensures
        !(Scalar { bits: GPU_THRESHOLD_BITS }).below(start_of(class)),
{
}

/// A process whose learned share is zero is in the state of one that was just
/// seen.
pub proof fn law_nothing_learned_is_new(
    s: ProcState,
    comm: Seq<char>,
    uid: u32,
    x_pos: Position,
    density: Scalar,
    start: StartDensity,
    now: u64,
)
    requires
        is_learned(s, comm, uid, Scalar { bits: ZERO_BITS }, x_pos, density, now),
        x_pos.val() == start_of(class_of(s)),
        density == start.of(class_of(s)),
    ensures
        is_new(s, comm, uid, start, now),
{
}

/// Whether a share is a number of `0 ..= 1`.
pub open spec fn is_share(x: Scalar) -> bool {
    !x.nan() && 0 <= x.rank() <= ONE_BITS
}

/// Whether the numbers of an observation, or of a state, lie in their ranges: the
/// share in `0 ..= 1`, the position in `-1 ..= 1`, the spread in
/// `0.15 ..= 0.50`.
pub open spec fn in_ranges(ema: Scalar, x_pos: Position, sigma: Spread) -> bool {
    &&& is_share(ema)
    &&& scalar::within(x_pos.val(), Scalar { bits: MINUS_ONE_BITS }, Scalar { bits: ONE_BITS })
    &&& scalar::within(
        sigma.val(),
        Scalar { bits: SIGMA_MIN_BITS },
        Scalar { bits: SIGMA_MAX_BITS },
    )
}

/// An observation whose numbers lie in their ranges leaves a state whose numbers
/// do; and a process is on the GPU after it only beyond the threshold.
pub proof fn law_observing_keeps_the_ranges(s: ProcState, step: Step, now: u64)
    requires
        in_ranges(s.gpu_rate_ema, s.x_pos, s.sigma),
        in_ranges(step.gpu_rate_ema, step.x_pos, step.sigma),
    ensures
        ({
            let r = updated(s, step, now);
            &&& in_ranges(r.gpu_rate_ema, r.x_pos, r.sigma)
            &&& r.use_gpu ==> beyond_threshold(r.x_pos) && class_of(r) == ProcClass::User
        }),
{
}

/// After an observation of a user's process the state holds the numbers of the
/// observation, whatever it held before, and the process belongs on the GPU if and
/// only if the position is larger than 0.5.
pub proof fn law_observation_is_taken_in(s: ProcState, step: Step, now: u64)
    requires
        crate::class::comm_class(s.comm@, s.uid) == ProcClass::User,
    ensures
        updated(s, step, now).gpu_rate_ema == step.gpu_rate_ema,
        updated(s, step, now).x_pos == step.x_pos,
        updated(s, step, now).sigma == step.sigma,
        updated(s, step, now).density == step.density,
        updated(s, step, now).last_updated_ts == now,
        updated(s, step, now).comm == s.comm,
        updated(s, step, now).uid == s.uid,
        updated(s, step, now).use_gpu <==> (Scalar { bits: 0x3FE0_0000_0000_0000 }).below(
            step.x_pos.val(),
        ),
{
}

/// Of several observations the last one counts, and the order of the others makes
/// no difference.
pub proof fn law_last_observation_counts(s: ProcState, a: Step, b: Step, t: u64, u: u64)
    ensures
        updated(updated(s, a, t), b, u) == updated(s, b, u),
{
}

/// Whatever is observed of a process that is no user's, all that can change is that
/// it leaves the GPU.
pub proof fn law_others_leave_the_gpu(s: ProcState, step: Step, now: u64)
    requires
        crate::class::comm_class(s.comm@, s.uid) != ProcClass::User,
    ensures
        updated(s, step, now) == (ProcState { use_gpu: false, ..s }),
{
}

/// A process that was just seen has a share of zero and is not on the GPU; where it
/// starts and how dense that place is follows from its class alone. It starts with
/// a spread of 0.325, at -0.12, -0.04 or 0.08.
pub proof fn law_new_processes(
    s: ProcState,
    comm: Seq<char>,
    uid: u32,
    start: StartDensity,
    now: u64,
)
    requires
        is_new(s, comm, uid, start, now),
    ensures
        s.comm@ == comm,
        s.uid == uid,
        s.gpu_rate_ema.bits == 0,
        !s.use_gpu,
        s.last_updated_ts == now,
        s.sigma.val().bits == 0x3FD4_CCCC_CCCC_CCCD,
        ({
            match crate::class::comm_class(comm, uid) {
                ProcClass::Kernel => s.x_pos.val().bits == 0xBFBE_B851_EB85_1EB8 && s.density
                    == start.kernel,
                ProcClass::System => s.x_pos.val().bits == 0xBFA4_7AE1_47AE_147C && s.density
                    == start.system,
                ProcClass::User => s.x_pos.val().bits == 0x3FB4_7AE1_47AE_147C && s.density
                    == start.user,
            }
        }),
{
}

/// A process of which a share was learned has that share, and the position and the
/// density that follow from it; it is on the GPU if and only if the position is
/// larger than 0.5.
pub proof fn law_learned_processes(
    s: ProcState,
    comm: Seq<char>,
    uid: u32,
    ema: Scalar,
    x_pos: Position,
    density: Scalar,
    now: u64,
)
    requires
        is_learned(s, comm, uid, ema, x_pos, density, now),
    ensures
        s.comm@ == comm,
        s.uid == uid,
        s.gpu_rate_ema == ema,
        s.x_pos == x_pos,
        s.density == density,
        s.last_updated_ts == now,
        s.sigma.val().bits == 0x3FD4_CCCC_CCCC_CCCD,
        s.use_gpu <==> (Scalar { bits: 0x3FE0_0000_0000_0000 }).below(x_pos.val()),
{
}

} // verus!
