use vstd::prelude::*;

use crate::error::FerricAlphaError;
use crate::report::table::{finite_bits, float_key};

verus! {

/// The bucket, from zero, of the value ranked `rank` (from zero) among `len` sorted values
/// cut into `quantiles` buckets: proportional to the rank when there are at least as many
/// values as buckets, otherwise the rank spread over the whole range of buckets and rounded
/// half away from zero.
pub open spec fn bucket_of(rank: nat, len: nat, quantiles: nat) -> nat {
    if len >= quantiles {
        let b = rank * quantiles / len;
        if b < quantiles - 1 {
            b
        } else {
            (quantiles - 1) as nat
        }
    } else {
        ((2 * rank * (quantiles - 1) + (len - 1)) / (2 * (len - 1))) as nat
    }
}

/// The quantile assigned to the value ranked `rank` among `len` values, counting buckets
/// from `offset`.
pub fn quantile_bucket(rank: usize, len: usize, quantiles: u32, offset: u32) -> (r: u32)
    requires
        2 <= len <= u32::MAX,
        rank < len,
        quantiles >= 1,
        len >= quantiles ==> rank * quantiles <= u32::MAX,
        offset + quantiles - 1 <= u32::MAX,
    ensures
        r == offset + bucket_of(rank as nat, len as nat, quantiles as nat),
        r < offset + quantiles,
{
    let n: u64 = len as u64;
    let k: u64 = rank as u64;
    let q: u64 = quantiles as u64;
    let bucket: u64 = if n >= q {
        assert(k * q <= u32::MAX);
        let b: u64 = (k * q) / n;
        if b < q - 1 {
            b
        } else {
            q - 1
        }
    } else {
        let wk: u128 = k as u128;
        let wn: u128 = n as u128;
        let wq: u128 = q as u128;
        assert(wk * (wq - 1) <= 0xffff_ffff * 0xffff_ffff) by (nonlinear_arith)
            requires
                wk < wn,
                wn <= 0xffff_ffff,
                wq <= 0xffff_ffff,
                wq >= 1,
        ;
        let prod: u128 = wk * (wq - 1);
        let b: u128 = (2 * prod + (wn - 1)) / (2 * (wn - 1));
        assert(2 * prod == 2 * wk * (wq - 1)) by (nonlinear_arith)
            requires
                prod == wk * (wq - 1),
        ;
        assert(b < wq) by (nonlinear_arith)
            requires
                b == (2 * wk * (wq - 1) + (wn - 1)) / (2 * (wn - 1)),
                wk <= wn - 1,
                wn >= 2,
                wq >= 1,
        ;
        b as u64
    };
    assert(bucket < q);
    offset + bucket as u32
}


/// How factor values are cut into buckets. Boundaries and edges are floating-point numbers
/// held as their IEEE-754 bit patterns.
#[derive(Debug, Clone, PartialEq)]
pub struct QuantizeOptions {
    quantiles: Option<u32>,
    quantile_edges: Option<Vec<u64>>,
    bin_count: Option<u32>,
    bins: Option<Vec<u64>>,
    by_group: bool,
    zero_aware: bool,
}

/// The way of cutting that a set of options asks for.
#[derive(Debug, Clone, Copy, PartialEq, Eq, Structural)]
pub enum QuantizeMode {
    Quantiles(u32),
    QuantileEdges,
    BinCount(u32),
    Bins,
}

/// The bit pattern of the double 1.0.
pub open spec fn one_bits() -> int {
    0x3FF0_0000_0000_0000
}

pub open spec fn quantile_error(reason: &'static str) -> FerricAlphaError {
    FerricAlphaError::InvalidQuantiles { reason }
}

/// An edge outside `[0, 1]`, or not a finite number.
pub open spec fn bad_edge(b: u64) -> bool {
    !finite_bits(b) || float_key(b) < 0 || float_key(b) > one_bits()
}

/// Two neighbouring values that do not increase.
pub open spec fn not_increasing_at(v: Seq<u64>, i: int) -> bool {
    float_key(v[i]) >= float_key(v[i + 1])
}

/// Two neighbouring boundaries that are not finite and increasing.
pub open spec fn bad_bin_pair(v: Seq<u64>, i: int) -> bool {
    !finite_bits(v[i]) || !finite_bits(v[i + 1]) || float_key(v[i]) >= float_key(v[i + 1])
}

pub open spec fn some_count<T>(o: Option<T>) -> int {
    if o is Some {
        1
    } else {
        0
    }
}

impl QuantizeOptions {
    pub closed spec fn spec_quantiles(self) -> Option<u32> {
        self.quantiles
    }

    pub closed spec fn spec_quantile_edges(self) -> Option<Seq<u64>> {
        match self.quantile_edges {
            Some(v) => Some(v@),
            None => None,
        }
    }

    pub closed spec fn spec_bin_count(self) -> Option<u32> {
        self.bin_count
    }

    pub closed spec fn spec_bins(self) -> Option<Seq<u64>> {
        match self.bins {
            Some(v) => Some(v@),
            None => None,
        }
    }

    pub closed spec fn spec_by_group(self) -> bool {
        self.by_group
    }

    pub closed spec fn spec_zero_aware(self) -> bool {
        self.zero_aware
    }

    /// What the options ask for, or the first rule they break: one mode only, then the
    /// rules of that mode in turn.
    pub open spec fn mode_result(self) -> Result<QuantizeMode, FerricAlphaError> {
        let active = some_count(self.spec_quantiles()) + some_count(self.spec_quantile_edges())
            + some_count(self.spec_bin_count()) + some_count(self.spec_bins());
        if active > 1 {
            Err(FerricAlphaError::ConflictingQuantileMode)
        } else if self.spec_quantiles() is Some {
            let q = self.spec_quantiles()->0;
            if q < 2 {
                Err(quantile_error("quantiles must be at least 2"))
            } else if self.spec_zero_aware() && q % 2 != 0 {
                Err(quantile_error("zero-aware quantiles must be even"))
            } else {
                Ok(QuantizeMode::Quantiles(q))
            }
        } else if self.spec_quantile_edges() is Some {
            let e = self.spec_quantile_edges()->0;
            if e.len() < 2 {
                Err(quantile_error("quantile edges must contain at least two boundaries"))
            } else if exists|i: int| 0 <= i < e.len() && #[trigger] bad_edge(e[i]) {
                Err(quantile_error("quantile edges must be finite values in [0, 1]"))
            } else if exists|i: int| 0 <= i < e.len() - 1 && #[trigger] not_increasing_at(e, i) {
                Err(quantile_error("quantile edges must be strictly increasing"))
            } else {
                Ok(QuantizeMode::QuantileEdges)
            }
        } else if self.spec_bin_count() is Some {
            let b = self.spec_bin_count()->0;
            if b < 1 {
                Err(quantile_error("bins must be at least 1"))
            } else if self.spec_zero_aware() && b % 2 != 0 {
                Err(quantile_error("zero-aware bins must be even"))
            } else {
                Ok(QuantizeMode::BinCount(b))
            }
        } else if self.spec_bins() is None {
            Err(quantile_error("quantiles or bins are required"))
        } else {
            let v = self.spec_bins()->0;
            if v.len() < 2 {
                Err(quantile_error("bins must contain at least two boundaries"))
            } else if self.spec_zero_aware() {
                Err(quantile_error("zero-aware explicit bins are not supported in this phase"))
            } else if exists|i: int| 0 <= i < v.len() - 1 && #[trigger] bad_bin_pair(v, i) {
                Err(quantile_error("bin boundaries must be finite and strictly increasing"))
            } else {
                Ok(QuantizeMode::Bins)
            }
        }
    }

    /// Cut each date's values into `quantiles` groups of equal size.
    pub fn quantiles(quantiles: u32) -> (r: QuantizeOptions)
        ensures
            r.spec_quantiles() == Some(quantiles),
            r.spec_quantile_edges() is None,
            r.spec_bin_count() is None,
            r.spec_bins() is None,
            !r.spec_by_group(),
            !r.spec_zero_aware(),
    {
        QuantizeOptions {
            quantiles: Some(quantiles),
            quantile_edges: None,
            bin_count: None,
            bins: None,
            by_group: false,
            zero_aware: false,
        }
    }

    /// Cut at these quantiles of each date's values.
    pub fn quantile_edges(edges: Vec<u64>) -> (r: QuantizeOptions)
        ensures
            r.spec_quantiles() is None,
            r.spec_quantile_edges() == Some(edges@),
            r.spec_bin_count() is None,
            r.spec_bins() is None,
            !r.spec_by_group(),
            !r.spec_zero_aware(),
    {
        QuantizeOptions {
            quantiles: None,
            quantile_edges: Some(edges),
            bin_count: None,
            bins: None,
            by_group: false,
            zero_aware: false,
        }
    }

    /// Cut each date's range of values into `bins` bins of equal width.
    pub fn bin_count(bins: u32) -> (r: QuantizeOptions)
        ensures
            r.spec_quantiles() is None,
            r.spec_quantile_edges() is None,
            r.spec_bin_count() == Some(bins),
            r.spec_bins() is None,
            !r.spec_by_group(),
            !r.spec_zero_aware(),
    {
        QuantizeOptions {
            quantiles: None,
            quantile_edges: None,
            bin_count: Some(bins),
            bins: None,
            by_group: false,
            zero_aware: false,
        }
    }

    /// Cut at these boundaries.
    pub fn bins(bins: Vec<u64>) -> (r: QuantizeOptions)
        ensures
            r.spec_quantiles() is None,
            r.spec_quantile_edges() is None,
            r.spec_bin_count() is None,
            r.spec_bins() == Some(bins@),
            !r.spec_by_group(),
            !r.spec_zero_aware(),
    {
        QuantizeOptions {
            quantiles: None,
            quantile_edges: None,
            bin_count: None,
            bins: Some(bins),
            by_group: false,
            zero_aware: false,
        }
    }

    pub fn with_by_group(self, by_group: bool) -> (r: QuantizeOptions)
        ensures
            r.spec_quantiles() == self.spec_quantiles(),
            r.spec_quantile_edges() == self.spec_quantile_edges(),
            r.spec_bin_count() == self.spec_bin_count(),
            r.spec_bins() == self.spec_bins(),
            r.spec_by_group() == by_group,
            r.spec_zero_aware() == self.spec_zero_aware(),
    {
        QuantizeOptions { by_group, ..self }
    }

    pub fn with_zero_aware(self, zero_aware: bool) -> (r: QuantizeOptions)
        ensures
            r.spec_quantiles() == self.spec_quantiles(),
            r.spec_quantile_edges() == self.spec_quantile_edges(),
            r.spec_bin_count() == self.spec_bin_count(),
            r.spec_bins() == self.spec_bins(),
            r.spec_by_group() == self.spec_by_group(),
            r.spec_zero_aware() == zero_aware,
    {
        QuantizeOptions { zero_aware, ..self }
    }

    pub fn by_group(&self) -> (r: bool)
        ensures
            r == self.spec_by_group(),
    {
        self.by_group
    }

    pub fn zero_aware(&self) -> (r: bool)
        ensures
            r == self.spec_zero_aware(),
    {
        self.zero_aware
    }

    /// The quantile edges, as bit patterns.
    pub fn edges(&self) -> (r: Option<&[u64]>)
        ensures
            match self.spec_quantile_edges() {
                Some(e) => r matches Some(x) && x@ == e,
                None => r is None,
            },
    {
        match &self.quantile_edges {
            Some(v) => Some(v.as_slice()),
            None => None,
        }
    }

    /// The bin boundaries, as bit patterns.
    pub fn boundaries(&self) -> (r: Option<&[u64]>)
        ensures
            match self.spec_bins() {
                Some(b) => r matches Some(x) && x@ == b,
                None => r is None,
            },
    {
        match &self.bins {
            Some(v) => Some(v.as_slice()),
            None => None,
        }
    }

    /// Checks the options and says how they cut.
    #[verifier::loop_isolation(false)]
    pub fn mode(&self) -> (r: Result<QuantizeMode, FerricAlphaError>)
        ensures
            r == self.mode_result(),
    {
        let active: u8 = (if self.quantiles.is_some() { 1u8 } else { 0u8 }) + (if self.quantile_edges.is_some() {
            1u8
        } else {
            0u8
        }) + (if self.bin_count.is_some() { 1u8 } else { 0u8 }) + (if self.bins.is_some() {
            1u8
        } else {
            0u8
        });
        if active > 1 {
            return Err(FerricAlphaError::ConflictingQuantileMode);
        }
        match self.quantiles {
            Some(q) => {
                if q < 2 {
                    return Err(FerricAlphaError::InvalidQuantiles { reason: "quantiles must be at least 2" });
                }
                if self.zero_aware && q % 2 != 0 {
                    return Err(
                        FerricAlphaError::InvalidQuantiles { reason: "zero-aware quantiles must be even" },
                    );
                }
                return Ok(QuantizeMode::Quantiles(q));
            },
            None => {},
        }
        match &self.quantile_edges {
            Some(edges) => {
                if edges.len() < 2 {
                    return Err(
                        FerricAlphaError::InvalidQuantiles {
                            reason: "quantile edges must contain at least two boundaries",
                        },
                    );
                }
                let mut i: usize = 0;
                while i < edges.len()
                    invariant
                        i <= edges@.len(),
                        forall|k: int| 0 <= k < i ==> !#[trigger] bad_edge(edges@[k]),
                    decreases edges@.len() - i,
                {
                    if !finite_u64(edges[i]) || key_of(edges[i]) < 0 || key_of(edges[i]) > 0x3FF0_0000_0000_0000 {
                        assert(bad_edge(edges@[i as int]));
                        return Err(
                            FerricAlphaError::InvalidQuantiles {
                                reason: "quantile edges must be finite values in [0, 1]",
                            },
                        );
                    }
                    i = i + 1;
                }
                let mut i: usize = 0;
                while i < edges.len() - 1
                    invariant
                        i <= edges@.len() - 1,
                        forall|k: int| 0 <= k < i ==> !#[trigger] not_increasing_at(edges@, k),
                    decreases edges@.len() - i,
                {
                    if key_of(edges[i]) >= key_of(edges[i + 1]) {
                        assert(not_increasing_at(edges@, i as int));
                        return Err(
                            FerricAlphaError::InvalidQuantiles {
                                reason: "quantile edges must be strictly increasing",
                            },
                        );
                    }
                    i = i + 1;
                }
                return Ok(QuantizeMode::QuantileEdges);
            },
            None => {},
        }
        match self.bin_count {
            Some(b) => {
                if b < 1 {
                    return Err(FerricAlphaError::InvalidQuantiles { reason: "bins must be at least 1" });
                }
                if self.zero_aware && b % 2 != 0 {
                    return Err(FerricAlphaError::InvalidQuantiles { reason: "zero-aware bins must be even" });
                }
                return Ok(QuantizeMode::BinCount(b));
            },
            None => {},
        }
        match &self.bins {
            None => Err(FerricAlphaError::InvalidQuantiles { reason: "quantiles or bins are required" }),
            Some(bins) => {
                if bins.len() < 2 {
                    return Err(
                        FerricAlphaError::InvalidQuantiles {
                            reason: "bins must contain at least two boundaries",
                        },
                    );
                }
                if self.zero_aware {
                    return Err(
                        FerricAlphaError::InvalidQuantiles {
                            reason: "zero-aware explicit bins are not supported in this phase",
                        },
                    );
                }
                let mut i: usize = 0;
                while i < bins.len() - 1
                    invariant
                        i <= bins@.len() - 1,
                        forall|k: int| 0 <= k < i ==> !#[trigger] bad_bin_pair(bins@, k),
                    decreases bins@.len() - i,
                {
                    if !finite_u64(bins[i]) || !finite_u64(bins[i + 1]) || key_of(bins[i]) >= key_of(
                        bins[i + 1],
                    ) {
                        assert(bad_bin_pair(bins@, i as int));
                        return Err(
                            FerricAlphaError::InvalidQuantiles {
                                reason: "bin boundaries must be finite and strictly increasing",
                            },
                        );
                    }
                    i = i + 1;
                }
                Ok(QuantizeMode::Bins)
            },
        }
    }
}

/// Whether a double's bit pattern is a finite number.
fn finite_u64(b: u64) -> (r: bool)
    ensures
        r == finite_bits(b),
{
    (b / 0x10_0000_0000_0000) % 0x800 != 0x7ff
}

/// The order key of a finite double's bit pattern.
fn key_of(b: u64) -> (r: i128)
    ensures
        r == float_key(b),
{
    if b < 0x8000_0000_0000_0000 {
        b as i128
    } else {
        -((b - 0x8000_0000_0000_0000) as i128)
    }
}


/// A higher rank never falls in a lower bucket.
pub proof fn lemma_bucket_monotone(a: nat, b: nat, len: nat, quantiles: nat)
    requires
        a <= b < len,
        len >= 2,
        quantiles >= 1,
    ensures
        bucket_of(a, len, quantiles) <= bucket_of(b, len, quantiles),
{
    if len >= quantiles {
        assert(a * quantiles <= b * quantiles) by (nonlinear_arith)
            requires
                a <= b,
        ;
        vstd::arithmetic::div_mod::lemma_div_is_ordered(
            (a * quantiles) as int,
            (b * quantiles) as int,
            len as int,
        );
    } else {
        assert(2 * a * (quantiles - 1) + (len - 1) <= 2 * b * (quantiles - 1) + (len - 1))
            by (nonlinear_arith)
            requires
                a <= b,
                quantiles >= 1,
        ;
        vstd::arithmetic::div_mod::lemma_div_is_ordered(
            2 * a * (quantiles - 1) + (len - 1),
            2 * b * (quantiles - 1) + (len - 1),
            2 * (len - 1),
        );
    }
}

} // verus!
