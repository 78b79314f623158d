//! Power-of-two trace domains for fixed preprocessing tables.
use vstd::arithmetic::power2::{lemma_pow2_strictly_increases, lemma_pow2_unfold, pow2};
use vstd::prelude::*;

verus! {

/// Smallest trace log size of a preprocessing table.
pub const MIN_LOG_SIZE: u32 = 4;

/// Largest log size of a circle domain over M31.
pub const MAX_LOG_SIZE: u32 = 30;

/// A table whose padded domain cannot be built.
#[derive(Clone, Copy, Debug, PartialEq, Eq, Structural)]
pub enum PaddedSizeError {
    /// The next power of two above the row count does not fit `usize`.
    RowCountOverflow,
    /// The padded domain is larger than allowed.
    LogSizeOutOfRange { log_size: u32 },
}

/// The smallest exponent `j >= k` with `2^j >= n`, searched up to 64.
pub open spec fn min_cover(n: int, k: nat) -> nat
    decreases 64 - k,
{
    if k >= 64 || pow2(k) >= n {
        k
    } else {
        min_cover(n, k + 1)
    }
}

/// Padding `row_count` rows to the smallest power-of-two domain of at least
/// `2^MIN_LOG_SIZE` rows, whose log size must not exceed `max_log_size`.
pub open spec fn spec_padded_log_size(row_count: nat, max_log_size: u32) -> Result<
    u32,
    PaddedSizeError,
> {
    let j = min_cover(row_count as int, 0);
    if pow2(j) < row_count || pow2(j) > usize::MAX {
        Err(PaddedSizeError::RowCountOverflow)
    } else {
        let k = if j < MIN_LOG_SIZE {
            MIN_LOG_SIZE
        } else {
            j as u32
        };
        if k > max_log_size {
            Err(PaddedSizeError::LogSizeOutOfRange { log_size: k })
        } else {
            Ok(k)
        }
    }
}

/// `k` is the log size of the smallest power-of-two domain, at least
/// `2^MIN_LOG_SIZE` rows, that holds `row_count` rows.
pub open spec fn is_padded_log_size(k: nat, row_count: int) -> bool {
    &&& MIN_LOG_SIZE <= k
    &&& pow2(k) >= row_count
    &&& k > MIN_LOG_SIZE ==> pow2((k - 1) as nat) < row_count
}

/// What each outcome of padding means.
pub open spec fn padded_log_size_ok(
    result: Result<u32, PaddedSizeError>,
    row_count: usize,
    max_log_size: u32,
) -> bool {
    match result {
        Ok(k) => is_padded_log_size(k as nat, row_count as int) && k <= max_log_size,
        Err(PaddedSizeError::RowCountOverflow) => forall|j: nat|
            pow2(j) >= row_count ==> #[trigger] pow2(j) > usize::MAX,
        Err(PaddedSizeError::LogSizeOutOfRange { log_size }) => {
            &&& is_padded_log_size(log_size as nat, row_count as int)
            &&& pow2(log_size as nat) <= usize::MAX
            &&& log_size > max_log_size
        },
    }
}

proof fn lemma_min_cover(n: int, k: nat)
    requires
        k <= 64,
    ensures
        k <= min_cover(n, k) <= 64,
        min_cover(n, k) < 64 ==> pow2(min_cover(n, k)) >= n,
        forall|j: nat| k <= j < min_cover(n, k) ==> #[trigger] pow2(j) < n,
    decreases 64 - k,
{
    if k < 64 && pow2(k) < n {
        lemma_min_cover(n, k + 1);
    }
}

/// Pads a row count to the smallest power-of-two domain of at least
/// `2^MIN_LOG_SIZE` rows and returns its log size.
pub fn padded_log_size(row_count: usize, max_log_size: u32) -> (result: Result<
    u32,
    PaddedSizeError,
>)
    ensures
        result == spec_padded_log_size(row_count as nat, max_log_size),
        padded_log_size_ok(result, row_count, max_log_size),
{
    let mut k: u32 = 0;
    let mut p: usize = 1;
    proof {
        vstd::arithmetic::power2::lemma2_to64();
        vstd::arithmetic::power2::lemma2_to64_rest();
        lemma_min_cover(row_count as int, 0);
    }
    while p < row_count
        invariant
            p == pow2(k as nat),
            p >= 1,
            k < 64,
            forall|j: nat| j < k ==> #[trigger] pow2(j) < row_count,
            min_cover(row_count as int, 0) == min_cover(row_count as int, k as nat),
            pow2(64) > usize::MAX,
        decreases 64 - k,
    {
        if p > usize::MAX / 2 {
            proof {
                lemma_pow2_unfold((k + 1) as nat);
                lemma_min_cover(row_count as int, (k + 1) as nat);
                let j = min_cover(row_count as int, 0);
                if j > k + 1 {
                    lemma_pow2_strictly_increases((k + 1) as nat, j);
                }
                assert forall|j: nat| pow2(j) >= row_count implies #[trigger] pow2(j)
                    > usize::MAX by {
                    if j <= k {
                        if j < k {
                            lemma_pow2_strictly_increases(j, k as nat);
                        }
                    } else if j > k + 1 {
                        lemma_pow2_strictly_increases((k + 1) as nat, j);
                    }
                }
            }
            return Err(PaddedSizeError::RowCountOverflow);
        }
        proof {
            lemma_pow2_unfold((k + 1) as nat);
            if k >= 63 {
                assert(pow2(63) > usize::MAX / 2);
                if k > 63 {
                    lemma_pow2_strictly_increases(63, k as nat);
                }
            }
        }
        p = p * 2;
        k = k + 1;
    }
    proof {
        assert(min_cover(row_count as int, k as nat) == k);
    }
    let k = if k < MIN_LOG_SIZE {
        proof {
            lemma_pow2_strictly_increases(k as nat, MIN_LOG_SIZE as nat);
            if MIN_LOG_SIZE - 1 > k {
                lemma_pow2_strictly_increases(k as nat, (MIN_LOG_SIZE - 1) as nat);
            }
        }
        MIN_LOG_SIZE
    } else {
        k
    };
    if k > max_log_size {
        return Err(PaddedSizeError::LogSizeOutOfRange { log_size: k });
    }
    Ok(k)
}

/// A row count within a domain of at most `2^MAX_LOG_SIZE` rows always pads.
pub proof fn lemma_padded_log_size_at_most(row_count: nat, k: nat)
    requires
        row_count <= pow2(k),
        k <= MAX_LOG_SIZE,
    ensures
        spec_padded_log_size(row_count, MAX_LOG_SIZE) is Ok,
{
    vstd::arithmetic::power2::lemma2_to64();
    lemma_min_cover(row_count as int, 0);
    let j = min_cover(row_count as int, 0);
    if j > k {
        assert(pow2(k) < row_count);
    }
    if j < 30 {
        lemma_pow2_strictly_increases(j, 30);
    }
}

/// The number of rows of a domain of log size `log_size`.
pub fn domain_size(log_size: u32) -> (size: usize)
    requires
        log_size <= MAX_LOG_SIZE,
    ensures
        size == pow2(log_size as nat),
{
    let mut size: usize = 1;
    let mut k: u32 = 0;
    proof {
        vstd::arithmetic::power2::lemma2_to64();
    }
    while k < log_size
        invariant
            k <= log_size <= MAX_LOG_SIZE,
            size == pow2(k as nat),
            size <= pow2(MAX_LOG_SIZE as nat),
            pow2(MAX_LOG_SIZE as nat) == 0x4000_0000,
        decreases log_size - k,
    {
        proof {
            lemma_pow2_unfold((k + 1) as nat);
            if k + 1 < MAX_LOG_SIZE {
                lemma_pow2_strictly_increases((k + 1) as nat, MAX_LOG_SIZE as nat);
            }
        }
        size = size * 2;
        k = k + 1;
    }
    size
}

} // verus!
