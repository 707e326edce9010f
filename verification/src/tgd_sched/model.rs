//! From the density of a process to its nice value, and the spread of the
//! density.

use crate::scalar;
use crate::scalar::Scalar;
use crate::scalar::ONE_BITS;
use vstd::prelude::*;

verus! {

/// The nice value of the densest place.
pub const NICE_BASE: i32 = -5;

/// How far the nice value falls off from there.
pub const NICE_RANGE: i32 = 24;

/// The highest nice value that is given; the lowest is `NICE_BASE`.
pub const NICE_MAX: i32 = 19;

/// The pattern of 89478486.14583331, the largest density that can be told from
/// full density in steps that fit an `i32`.
pub const DENSITY_MAX_BITS: u64 = 0x4195_5555_5895_5554;

/// The pattern of 0.15, the smallest spread.
pub const SIGMA_MIN_BITS: u64 = 0x3FC3_3333_3333_3333;

/// The pattern of 0.40, the largest spread.
pub const SIGMA_MAX_BITS: u64 = 0x3FD9_9999_9999_999A;

/// The pattern of 0.35, the spread at the start.
pub const SIGMA_START_BITS: u64 = 0x3FD6_6666_6666_6666;

/// The largest density that has fallen by `k` steps, for `k` of `1 ..= 24`: that
/// is `(49 - 2 * k) / 48`, or a binary64 number close to it. A density falls by
/// `24 * (1 - density)` steps, rounded to a whole number and worked out in
/// binary64 arithmetic.
pub open spec fn step_bits(k: int) -> u64 {
    if k == 1 {
        0x3FEF_5555_5555_5555
    } else if k == 2 {
        0x3FEE_0000_0000_0000
    } else if k == 3 {
        0x3FEC_AAAA_AAAA_AAAA
    } else if k == 4 {
        0x3FEB_5555_5555_5555
    } else if k == 5 {
        0x3FEA_0000_0000_0000
    } else if k == 6 {
        0x3FE8_AAAA_AAAA_AAAA
    } else if k == 7 {
        0x3FE7_5555_5555_5555
    } else if k == 8 {
        0x3FE6_0000_0000_0000
    } else if k == 9 {
        0x3FE4_AAAA_AAAA_AAAB
    } else if k == 10 {
        0x3FE3_5555_5555_5555
    } else if k == 11 {
        0x3FE2_0000_0000_0000
    } else if k == 12 {
        0x3FE0_AAAA_AAAA_AAAB
    } else if k == 13 {
        0x3FDE_AAAA_AAAA_AAAA
    } else if k == 14 {
        0x3FDC_0000_0000_0001
    } else if k == 15 {
        0x3FD9_5555_5555_5556
    } else if k == 16 {
        0x3FD6_AAAA_AAAA_AAAA
    } else if k == 17 {
        0x3FD4_0000_0000_0001
    } else if k == 18 {
        0x3FD1_5555_5555_5556
    } else if k == 19 {
        0x3FCD_5555_5555_555A
    } else if k == 20 {
        0x3FC8_0000_0000_0002
    } else if k == 21 {
        0x3FC2_AAAA_AAAA_AAAD
    } else if k == 22 {
        0x3FBA_AAAA_AAAA_AAB4
    } else if k == 23 {
        0x3FB0_0000_0000_0004
    } else {
        0x3F95_5555_5555_556F
    }
}

/// The largest density that has fallen by `k` steps.
pub open spec fn step(k: int) -> Scalar {
    Scalar { bits: step_bits(k) }
}

/// Whether a density has fallen by `k` steps; what is not a number has not.
pub open spec fn has_fallen(norm: Scalar, k: int) -> bool {
    !norm.nan() && norm.rank() <= step(k).rank()
}

/// How many of the first `k` steps a density has fallen by.
pub open spec fn steps_fallen(norm: Scalar, k: nat) -> nat
    decreases k,
{
    if k == 0 {
        0
    } else {
        steps_fallen(norm, (k - 1) as nat) + if has_fallen(norm, k as int) {
            1nat
        } else {
            0
        }
    }
}

/// The nice value for a density.
pub open spec fn nice_of(norm: Scalar) -> int {
    NICE_BASE + steps_fallen(norm, NICE_RANGE as nat)
}

/// Whether the steps of a density fit an `i32`. Every density of a normal curve
/// does: it is at most 1.
pub open spec fn measurable(norm: Scalar) -> bool {
    !(Scalar { bits: DENSITY_MAX_BITS }).below(norm)
}

/// Whether the steps of a density fit an `i32`.
pub fn is_measurable(norm: Scalar) -> (r: bool)
    ensures
        r == measurable(norm),
{
    let most: Scalar = Scalar { bits: DENSITY_MAX_BITS };
    !most.lt(norm)
}

/// The largest density that has fallen by `k` steps.
fn step_at(k: i32) -> (r: Scalar)
    ensures
        r == step(k as int),
{
    let bits: u64 = if k == 1 {
        0x3FEF_5555_5555_5555
    } else if k == 2 {
        0x3FEE_0000_0000_0000
    } else if k == 3 {
        0x3FEC_AAAA_AAAA_AAAA
    } else if k == 4 {
        0x3FEB_5555_5555_5555
    } else if k == 5 {
        0x3FEA_0000_0000_0000
    } else if k == 6 {
        0x3FE8_AAAA_AAAA_AAAA
    } else if k == 7 {
        0x3FE7_5555_5555_5555
    } else if k == 8 {
        0x3FE6_0000_0000_0000
    } else if k == 9 {
        0x3FE4_AAAA_AAAA_AAAB
    } else if k == 10 {
        0x3FE3_5555_5555_5555
    } else if k == 11 {
        0x3FE2_0000_0000_0000
    } else if k == 12 {
        0x3FE0_AAAA_AAAA_AAAB
    } else if k == 13 {
        0x3FDE_AAAA_AAAA_AAAA
    } else if k == 14 {
        0x3FDC_0000_0000_0001
    } else if k == 15 {
        0x3FD9_5555_5555_5556
    } else if k == 16 {
        0x3FD6_AAAA_AAAA_AAAA
    } else if k == 17 {
        0x3FD4_0000_0000_0001
    } else if k == 18 {
        0x3FD1_5555_5555_5556
    } else if k == 19 {
        0x3FCD_5555_5555_555A
    } else if k == 20 {
        0x3FC8_0000_0000_0002
    } else if k == 21 {
        0x3FC2_AAAA_AAAA_AAAD
    } else if k == 22 {
        0x3FBA_AAAA_AAAA_AAB4
    } else if k == 23 {
        0x3FB0_0000_0000_0004
    } else {
        0x3F95_5555_5555_556F
    };
    Scalar { bits }
}

/// The nice value for a density.
pub fn norm_to_nice(norm: Scalar) -> (r: i32)
    requires
        measurable(norm),
    ensures
        r == nice_of(norm),
        NICE_BASE <= r <= NICE_MAX,
{
    let mut nice: i32 = NICE_BASE;
    let mut k: i32 = 0;
    while k < NICE_RANGE
        invariant
            0 <= k <= NICE_RANGE,
            nice == NICE_BASE + steps_fallen(norm, k as nat),
            NICE_BASE <= nice <= NICE_BASE + k,
        decreases NICE_RANGE - k,
    {
        k = k + 1;
        if !norm.is_nan() && !step_at(k).lt(norm) {
            nice = nice + 1;
        }
    }
    nice
}

/// The spread of the density: a value of `0.15 ..= 0.40`, or not a number.
#[derive(Clone, Copy, Debug)]
pub struct Gauss {
    sigma: Scalar,
}

impl Gauss {
    #[verifier::type_invariant]
    spec fn in_range(self) -> bool {
        scalar::within(self.sigma, Scalar { bits: SIGMA_MIN_BITS }, Scalar { bits: SIGMA_MAX_BITS })
    }

    /// The value of the spread.
    pub closed spec fn val(self) -> Scalar {
        self.sigma
    }

    /// The spread at the start.
    pub fn new() -> (r: Gauss)
        ensures
            r.val() == (Scalar { bits: SIGMA_START_BITS }),
    {
        Gauss { sigma: Scalar { bits: SIGMA_START_BITS } }
    }

    pub fn sigma(&self) -> (r: Scalar)
        ensures
            r == self.val(),
            scalar::within(r, Scalar { bits: SIGMA_MIN_BITS }, Scalar { bits: SIGMA_MAX_BITS }),
    {
        proof {
            use_type_invariant(self);
        }
        self.sigma
    }

    /// Takes the spread to a computed one, as far as that is allowed.
    pub fn update(&mut self, raw: Scalar)
        ensures
            final(self).val() == raw.clamped(
                Scalar { bits: SIGMA_MIN_BITS },
                Scalar { bits: SIGMA_MAX_BITS },
            ),
    {
        *self = Gauss {
            sigma: raw.clamp(Scalar { bits: SIGMA_MIN_BITS }, Scalar { bits: SIGMA_MAX_BITS }),
        };
    }
}

proof fn lemma_steps(norm: Scalar, k: nat)
    ensures
        steps_fallen(norm, k) <= k,
        (forall|j: int| 1 <= j <= k ==> has_fallen(norm, j)) ==> steps_fallen(norm, k) == k,
        (forall|j: int| 1 <= j <= k ==> !has_fallen(norm, j)) ==> steps_fallen(norm, k) == 0,
    decreases k,
{
    if k > 0 {
        lemma_steps(norm, (k - 1) as nat);
    }
}

proof fn lemma_denser_falls_less(a: Scalar, b: Scalar, k: nat)
    requires
        !a.nan(),
        !b.nan(),
        a.rank() <= b.rank(),
    ensures
        steps_fallen(b, k) <= steps_fallen(a, k),
    decreases k,
{
    if k > 0 {
        lemma_denser_falls_less(a, b, (k - 1) as nat);
    }
}

/// Every nice value that is given lies in `-5 ..= 19`. Full density has the
/// lowest, and so has every larger one; no density at all has the highest.
pub proof fn law_nice_range(norm: Scalar)
    ensures
        NICE_BASE <= nice_of(norm) <= NICE_MAX,
        !norm.nan() && norm.rank() >= ONE_BITS ==> nice_of(norm) == NICE_BASE,
        !norm.nan() && norm.rank() <= 0 ==> nice_of(norm) == NICE_MAX,
{
    lemma_steps(norm, NICE_RANGE as nat);
}

/// The denser the place of a process, the lower is its nice value, that is, the
/// higher its priority: a higher density never gets a larger nice value.
pub proof fn law_denser_is_served_first(a: Scalar, b: Scalar)
    requires
        !a.nan(),
        !b.nan(),
        a.rank() <= b.rank(),
    ensures
        NICE_BASE <= nice_of(b) <= nice_of(a) <= NICE_MAX,
{
    lemma_denser_falls_less(a, b, NICE_RANGE as nat);
    law_nice_range(a);
    law_nice_range(b);
}

/// Each step is taken by itself: at the largest density that has fallen by `k`
/// steps the nice value is `-5 + k`, so that every nice value of the range is
/// given.
pub proof fn law_every_nice_value_is_given(k: int)
    requires
        1 <= k <= NICE_RANGE,
    ensures
        nice_of(step(k)) == NICE_BASE + k,
{
    lemma_steps_to(k, NICE_RANGE as nat);
}

proof fn lemma_steps_to(k: int, n: nat)
    requires
        1 <= k <= NICE_RANGE,
        n <= NICE_RANGE,
    ensures
        steps_fallen(step(k), n) == if n <= k {
            n as int
        } else {
            k
        },
    decreases n,
{
    if n > 0 {
        lemma_steps_to(k, (n - 1) as nat);
    }
}

/// A number of at least 1/64 and less than 1, times 2 to the 58th: a whole
/// number, whatever the pattern.
pub open spec fn scaled(bits: u64) -> int {
    let m = 0x10_0000_0000_0000 + bits % 0x10_0000_0000_0000;
    let e = bits / 0x10_0000_0000_0000;
    if e == 1022 {
        m * 32
    } else if e == 1021 {
        m * 16
    } else if e == 1020 {
        m * 8
    } else if e == 1019 {
        m * 4
    } else if e == 1018 {
        m * 2
    } else {
        m as int
    }
}

/// The steps lie where `24 * (1 - density)` is half way between two whole
/// numbers: a density that has just fallen by `k` steps differs from
/// `(49 - 2 * k) / 48` by no more than 2 to the -52nd.
pub proof fn law_steps_follow_the_formula(k: int)
    requires
        1 <= k <= NICE_RANGE,
    ensures
        -48 * 64 <= 48 * scaled(step_bits(k)) - (49 - 2 * k) * 0x400_0000_0000_0000 <= 48 * 64,
{
}

/// A nice value has come up to `-5 + k` if and only if the density has come down to
/// the `k`th step; what is not a number has the lowest.
pub proof fn law_steps_decide(norm: Scalar, k: int)
    requires
        1 <= k <= 24,
    ensures
        nice_of(norm) >= -5 + k <==> !norm.nan() && norm.rank() <= step(k).rank(),
        norm.nan() ==> nice_of(norm) == -5,
{
    lemma_steps_decide(norm, k, 24);
    lemma_steps(norm, 24);
}

proof fn lemma_steps_decide(norm: Scalar, k: int, n: nat)
    requires
        1 <= k <= n <= 24,
    ensures
        steps_fallen(norm, n) >= k <==> has_fallen(norm, k),
    decreases n,
{
    lemma_steps(norm, n);
    lemma_steps(norm, (n - 1) as nat);
    if n > 1 {
        // Who has come down to the last step has come down to all before it.
        assert forall|j: int| 1 <= j <= n && has_fallen(norm, n as int) implies has_fallen(
            norm,
            j,
        ) by {}
        if k < n {
            lemma_steps_decide(norm, k, (n - 1) as nat);
        }
    }
}

proof fn lemma_scaled_grows(a: u64, b: u64)
    requires
        0x3F90_0000_0000_0000 <= a <= b < 0x3FF0_0000_0000_0000,
    ensures
        scaled(a) <= scaled(b),
        a < b ==> scaled(a) < scaled(b),
{
}

/// The nice value is `-5 + 24 * (1 - density)`, rounded: for every density from
/// 1/64 up to 1 the two differ by no more than one half, and a little for the
/// rounding of binary64 numbers. Both sides stand times 2 to the 58th.
pub proof fn law_nice_is_the_formula(norm: Scalar)
    requires
        0x3F90_0000_0000_0000 <= norm.bits < 0x3FF0_0000_0000_0000,
    ensures
        ({
            let unit = 0x400_0000_0000_0000int;
            let exact = 24 * (unit - scaled(norm.bits));
            &&& (nice_of(norm) + 5) * unit - exact <= unit / 2 + 24 * 64
            &&& exact - (nice_of(norm) + 5) * unit <= unit / 2 + 24 * 64
        }),
{
    law_nice_range(norm);
    let d = nice_of(norm) + 5;
    if d >= 1 {
        law_steps_decide(norm, d);
        law_steps_follow_the_formula(d);
        lemma_scaled_grows(norm.bits, step_bits(d));
    }
    if d < 24 {
        law_steps_decide(norm, d + 1);
        law_steps_follow_the_formula(d + 1);
        lemma_scaled_grows(step_bits(d + 1), norm.bits);
    }
}

} // verus!
