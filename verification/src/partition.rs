//! Partition coefficients and the equilibrium split of a cell.
use vstd::prelude::*;

verus! {

/// The share of `total` units that settles in the upper phase when the two
/// phases hold solute in the ratio `num : den` (upper to lower), rounded down
/// to a whole unit.
pub open spec fn upper_share(total: nat, num: nat, den: nat) -> nat {
    (num * total) / (num + den)
}

/// What is left of `total` for the lower phase once the upper phase has
/// taken its share.
pub open spec fn lower_share(total: nat, num: nat, den: nat) -> nat {
    (total - upper_share(total, num, den)) as nat
}

/// The upper share never exceeds the total, so the two shares add up to it.
pub proof fn lemma_shares_add_up(total: nat, num: nat, den: nat)
    requires
        num + den > 0,
    ensures
        upper_share(total, num, den) <= total,
        upper_share(total, num, den) + lower_share(total, num, den) == total,
{
    let d = (num + den) as int;
    let q = (num * total) as int / d;
    assert(d * q <= num * total) by (nonlinear_arith)
        requires
            d > 0,
            q == (num * total) as int / d,
            num * total >= 0,
    ;
    assert(q <= total) by (nonlinear_arith)
        requires
            d * q <= num * total,
            d == num + den,
            d > 0,
            q >= 0,
    ;
}

/// The split is as close to the ratio `num : den` as whole units allow: the
/// upper phase falls short of its exact share by less than one unit, which in
/// cross-multiplied form reads `0 <= lower * num - upper * den < num + den`.
pub proof fn lemma_shares_in_ratio(total: nat, num: nat, den: nat)
    requires
        num + den > 0,
    ensures
        ({
            let upper = upper_share(total, num, den);
            let lower = lower_share(total, num, den);
            &&& lower * num - upper * den == (num * total) % (num + den)
            &&& 0 <= lower * num - upper * den < num + den
        }),
{
    lemma_shares_add_up(total, num, den);
    let d = (num + den) as int;
    let p = (num * total) as int;
    let u = upper_share(total, num, den) as int;
    let l = lower_share(total, num, den) as int;
    assert(p == d * (p / d) + p % d && 0 <= p % d < d) by (nonlinear_arith)
        requires
            d > 0,
    ;
    assert(l * num - u * den == p - d * u) by (nonlinear_arith)
        requires
            l == total - u,
            p == num * total,
            d == num + den,
    ;
}

/// Where the exact share is a whole number of units, the split is in the
/// ratio `num : den` exactly.
pub proof fn lemma_shares_exact(total: nat, num: nat, den: nat)
    requires
        num + den > 0,
        (num * total) % (num + den) == 0,
    ensures
        upper_share(total, num, den) * den == lower_share(total, num, den) * num,
{
    lemma_shares_in_ratio(total, num, den);
}

/// A partition coefficient: the ratio `num : den` in which a cell at
/// equilibrium holds its solute in the upper and in the lower phase. Both
/// terms are positive.
#[derive(Clone, Copy, Debug, PartialEq, Eq)]
pub struct PartitionCoefficient {
    num: u64,
    den: u64,
}

impl PartitionCoefficient {
    /// The upper-phase term of the ratio.
    pub closed spec fn num(self) -> nat {
        self.num as nat
    }

    /// The lower-phase term of the ratio.
    pub closed spec fn den(self) -> nat {
        self.den as nat
    }

    /// Both terms are positive. This holds of every coefficient that exists
    /// at run time.
    #[verifier::type_invariant]
    pub open spec fn positive(self) -> bool {
        self.num() > 0 && self.den() > 0
    }

    /// The ratio `num : den`, or `None` unless both terms are positive.
    pub fn new(num: u64, den: u64) -> (r: Option<PartitionCoefficient>)
        ensures
            r is Some <==> num > 0 && den > 0,
            r matches Some(kval) ==> kval.num() == num && kval.den() == den,
    {
        if num == 0 || den == 0 {
            None
        } else {
            Some(PartitionCoefficient { num, den })
        }
    }

    /// The upper-phase term of the ratio.
    pub fn numerator(&self) -> (r: u64)
        ensures
            r == self.num(),
            r > 0,
    {
        proof {
            use_type_invariant(self);
        }
        self.num
    }

    /// The lower-phase term of the ratio.
    pub fn denominator(&self) -> (r: u64)
        ensures
            r == self.den(),
            r > 0,
    {
        proof {
            use_type_invariant(self);
        }
        self.den
    }

    /// Splits `total` units between the phases: the upper share, rounded
    /// down, and the rest for the lower phase.
    pub fn split(&self, total: u64) -> (r: (u64, u64))
        ensures
            r.0 == upper_share(total as nat, self.num(), self.den()),
            r.1 == lower_share(total as nat, self.num(), self.den()),
            r.0 + r.1 == total,
    {
        proof {
            use_type_invariant(self);
            lemma_shares_add_up(total as nat, self.num(), self.den());
        }
        let n: u128 = self.num as u128;
        let t: u128 = total as u128;
        assert(n * t <= 0xffff_ffff_ffff_ffff * 0xffff_ffff_ffff_ffff) by (nonlinear_arith)
            requires
                0 <= n <= 0xffff_ffff_ffff_ffff,
                0 <= t <= 0xffff_ffff_ffff_ffff,
        ;
        let d: u128 = n + self.den as u128;
        let q: u128 = (n * t) / d;
        let upper: u64 = q as u64;
        (upper, total - upper)
    }
}

impl Default for PartitionCoefficient {
    /// The ratio `1 : 1`, which splits a cell evenly.
    fn default() -> (r: PartitionCoefficient)
        ensures
            r.num() == 1,
            r.den() == 1,
    {
        PartitionCoefficient { num: 1, den: 1 }
    }
}

} // verus!
