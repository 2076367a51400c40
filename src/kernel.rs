use vstd::arithmetic::power::pow;
use vstd::prelude::*;

use crate::error::ConfigError;

verus! {

/// `weight(d) = exp(-d / radius)`, over a continuous distance.
///
/// The radius is kept as given; it must be positive, which the code that
/// reads it from the configuration checks.
pub struct Exponential<R> {
    pub radius: R,
}

impl<R> Exponential<R> {
    pub fn new(radius: R) -> (r: Self)
        ensures
            r.radius == radius,
    {
        Exponential { radius }
    }
}

/// `weight(d) = (1 - (d / radius)^exponent)^3`, over a continuous distance
/// no larger than the radius.
pub struct Tricubic<R> {
    pub radius: R,
    pub exponent: R,
}

impl<R> Tricubic<R> {
    pub fn new(radius: R, exponent: R) -> (r: Self)
        ensures
            r.radius == radius,
            r.exponent == exponent,
    {
        Tricubic { radius, exponent }
    }
}

/// Geometric decay over the depth of divergence in a hierarchy of `maxlvl`
/// levels, with `radius` in (0, 1).
pub struct DepthCODEm<R> {
    pub radius: R,
    pub maxlvl: i32,
}

/// The form that a `DepthCODEm` weight takes at one depth `d`, with `r` the
/// kernel's radius.
#[derive(Debug, Clone, Copy, PartialEq, Eq, Structural)]
pub enum DepthWeight {
    /// No weight: the depth reaches or passes the number of levels.
    Zero,
    /// `(1 - r)^d * r`: the share that stays at a level above the coarsest.
    Share(u32),
    /// `(1 - r)^d`: all the mass that is left at the coarsest level.
    Remainder(u32),
}

/// The weight form at depth `d` in a hierarchy of `maxlvl` levels.
pub open spec fn depth_weight(maxlvl: int, d: int) -> DepthWeight {
    if d >= maxlvl {
        DepthWeight::Zero
    } else if d == maxlvl - 1 {
        DepthWeight::Remainder(d as u32)
    } else {
        DepthWeight::Share(d as u32)
    }
}

/// The mass of a weight form in a hierarchy of `levels` levels, for the
/// radius `share / (keep + share)`, scaled by `(keep + share)^levels` so that
/// it is a whole number.
pub open spec fn scaled_mass(form: DepthWeight, keep: nat, share: nat, levels: nat) -> int {
    let q = (keep + share) as int;
    match form {
        DepthWeight::Zero => 0,
        DepthWeight::Share(d) => pow(keep as int, d as nat) * share * pow(q, (levels - 1 - d) as nat),
        DepthWeight::Remainder(d) => pow(keep as int, d as nat) * pow(q, (levels - d) as nat),
    }
}

/// The scaled masses of the weight forms at the depths `0..upto`.
pub open spec fn scaled_mass_below(maxlvl: int, keep: nat, share: nat, upto: nat) -> int
    decreases upto,
{
    if upto == 0 {
        0
    } else {
        scaled_mass_below(maxlvl, keep, share, (upto - 1) as nat) + scaled_mass(
            depth_weight(maxlvl, upto - 1),
            keep,
            share,
            maxlvl as nat,
        )
    }
}

proof fn lemma_shares_below(maxlvl: int, keep: nat, share: nat, m: nat)
    requires
        m < maxlvl,
        maxlvl <= i32::MAX,
    ensures
        scaled_mass_below(maxlvl, keep, share, m) == pow((keep + share) as int, maxlvl as nat) - pow(
            keep as int,
            m,
        ) * pow((keep + share) as int, (maxlvl - m) as nat),
    decreases m,
{
    let q = (keep + share) as int;
    let k = keep as int;
    if m == 0 {
        assert(pow(k, 0) == 1) by {
            vstd::arithmetic::power::lemma_pow0(k);
        }
    } else {
        let p = (m - 1) as nat;
        lemma_shares_below(maxlvl, keep, share, p);
        assert(depth_weight(maxlvl, p as int) == DepthWeight::Share(p as u32));
        let kp = pow(k, p);
        let qr = pow(q, (maxlvl - m) as nat);
        vstd::arithmetic::power::lemma_pow_adds(k, p, 1);
        vstd::arithmetic::power::lemma_pow1(k);
        vstd::arithmetic::power::lemma_pow_adds(q, (maxlvl - m) as nat, 1);
        vstd::arithmetic::power::lemma_pow1(q);
        assert(pow(k, m) == kp * k);
        assert(pow(q, (maxlvl - p) as nat) == qr * q);
        assert(kp * (qr * q) - kp * share * qr == kp * k * qr) by (nonlinear_arith)
            requires
                q == k + share,
        ;
    }
}

/// Over the levels of a hierarchy, the weight forms share out exactly the
/// whole mass: with radius `share / (keep + share)` in (0, 1), the masses at
/// the depths `0..maxlvl` add up to one, and every deeper depth has none.
pub proof fn lemma_depth_weights_sum_to_one(maxlvl: i32, keep: nat, share: nat)
    requires
        maxlvl > 0,
        keep > 0,
        share > 0,
    ensures
        scaled_mass_below(maxlvl as int, keep, share, maxlvl as nat) == pow(
            (keep + share) as int,
            maxlvl as nat,
        ),
        forall|d: int| d >= maxlvl ==> #[trigger] depth_weight(maxlvl as int, d) == DepthWeight::Zero,
{
    let q = (keep + share) as int;
    let k = keep as int;
    let p = (maxlvl - 1) as nat;
    lemma_shares_below(maxlvl as int, keep, share, p);
    assert(depth_weight(maxlvl as int, p as int) == DepthWeight::Remainder(p as u32));
    vstd::arithmetic::power::lemma_pow1(q);
}

impl<R> DepthCODEm<R> {
    /// Builds the kernel; a hierarchy needs at least one level.
    pub fn new(radius: R, maxlvl: i32) -> (r: Result<Self, ConfigError>)
        ensures
            maxlvl > 0 <==> r is Ok,
            r matches Ok(k) ==> k.radius == radius && k.maxlvl == maxlvl,
            r matches Err(e) ==> e == (ConfigError::MaxLevelOutOfRange { maxlvl }),
    {
        if maxlvl > 0 {
            Ok(DepthCODEm { radius, maxlvl })
        } else {
            Err(ConfigError::MaxLevelOutOfRange { maxlvl })
        }
    }

    /// Which form the weight takes at distance `d`.
    pub fn weight_form(&self, d: i32) -> (r: DepthWeight)
        requires
            d >= 0,
        ensures
            r == depth_weight(self.maxlvl as int, d as int),
    {
        if d >= self.maxlvl {
            DepthWeight::Zero
        } else if d == self.maxlvl - 1 {
            DepthWeight::Remainder(d as u32)
        } else {
            DepthWeight::Share(d as u32)
        }
    }
}

} // verus!
