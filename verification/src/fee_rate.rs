use vstd::prelude::*;

verus! {

/// The number of virtual bytes that `weight` weight units occupy: the weight
/// divided by four, rounded up.
pub open spec fn vbytes_of(weight: int) -> int {
    (weight + 3) / 4
}

/// The fee in satoshi that `vbytes` virtual bytes cost at `sat_per_kvb`
/// satoshi per thousand virtual bytes, rounded up to a whole satoshi.
pub open spec fn exact_fee(sat_per_kvb: int, vbytes: int) -> int {
    (sat_per_kvb * vbytes + 999) / 1000
}

/// `exact_fee`, held to the range of `u64`.
pub open spec fn capped_fee(sat_per_kvb: int, vbytes: int) -> int {
    if exact_fee(sat_per_kvb, vbytes) > u64::MAX {
        u64::MAX as int
    } else {
        exact_fee(sat_per_kvb, vbytes)
    }
}

/// The fee of a size that is not negative, at a rate that is not negative,
/// is in the range of `u64`.
pub proof fn lemma_capped_fee_range(sat_per_kvb: int, vbytes: int)
    requires
        0 <= sat_per_kvb,
        0 <= vbytes,
    ensures
        0 <= capped_fee(sat_per_kvb, vbytes) <= u64::MAX,
{
    assert(0 <= sat_per_kvb * vbytes) by (nonlinear_arith)
        requires
            0 <= sat_per_kvb,
            0 <= vbytes,
    ;
}

/// Virtual bytes of `weight` weight units, rounded up.
pub fn vbytes(weight: usize) -> (r: usize)
    ensures
        r == vbytes_of(weight as int),
{
    let whole: usize = weight / 4;
    if weight % 4 == 0 {
        whole
    } else {
        whole + 1
    }
}

/// A fee rate, held as a whole number of satoshi per thousand virtual bytes.
#[derive(Debug, Clone, Copy, PartialEq, Eq, Structural)]
pub struct FeeRate {
    sat_per_kvb: u64,
}

impl FeeRate {
    /// The rate in satoshi per thousand virtual bytes.
    pub closed spec fn rate(self) -> int {
        self.sat_per_kvb as int
    }

    /// The fee of `vbytes` virtual bytes at this rate.
    pub open spec fn fee_of_vbytes(self, vbytes: int) -> int {
        capped_fee(self.rate(), vbytes)
    }

    /// The fee of `weight` weight units at this rate.
    pub open spec fn fee_of_weight(self, weight: int) -> int {
        self.fee_of_vbytes(vbytes_of(weight))
    }

    /// The fee of a size that is not negative is in the range of `u64`.
    pub proof fn lemma_fee_range(self, vbytes: int)
        requires
            0 <= vbytes,
        ensures
            0 <= self.fee_of_vbytes(vbytes) <= u64::MAX,
    {
        lemma_capped_fee_range(self.rate(), vbytes);
    }

    /// A rate of `sat_per_kvb` satoshi per thousand virtual bytes.
    pub fn from_sat_per_kvb(sat_per_kvb: u64) -> (r: FeeRate)
        ensures
            r.rate() == sat_per_kvb,
    {
        FeeRate { sat_per_kvb }
    }

    /// A rate of `sat_per_vb` satoshi per virtual byte; a rate too large to
    /// hold becomes the largest rate.
    pub fn from_sat_per_vb(sat_per_vb: u64) -> (r: FeeRate)
        ensures
            r.rate() == if sat_per_vb * 1000 > u64::MAX {
                u64::MAX as int
            } else {
                sat_per_vb * 1000
            },
    {
        if sat_per_vb > u64::MAX / 1000 {
            FeeRate { sat_per_kvb: u64::MAX }
        } else {
            FeeRate { sat_per_kvb: sat_per_vb * 1000 }
        }
    }

    /// The rate in satoshi per thousand virtual bytes.
    pub fn as_sat_per_kvb(&self) -> (r: u64)
        ensures
            r == self.rate(),
    {
        self.sat_per_kvb
    }

    /// The fee in satoshi of `vbytes` virtual bytes, rounded up; a fee beyond
    /// `u64::MAX` is returned as `u64::MAX`.
    pub fn fee_vb(&self, vbytes: usize) -> (r: u64)
        ensures
            r == self.fee_of_vbytes(vbytes as int),
    {
        let rate: u128 = self.sat_per_kvb as u128;
        let size: u128 = vbytes as u128;
        assert(rate * size + 999 <= u128::MAX) by (nonlinear_arith)
            requires
                rate <= u64::MAX,
                size <= u64::MAX,
        ;
        let fee: u128 = (rate * size + 999) / 1000;
        if fee > u64::MAX as u128 {
            u64::MAX
        } else {
            fee as u64
        }
    }

    /// The fee in satoshi of `weight` weight units: the fee of the virtual
    /// bytes that they occupy.
    pub fn fee_wu(&self, weight: usize) -> (r: u64)
        ensures
            r == self.fee_of_weight(weight as int),
    {
        self.fee_vb(vbytes(weight))
    }
}

} // verus!
