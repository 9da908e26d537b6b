//! The configuration surface: every recognized option, its default, and the
//! tolerant decimal parsing of environment-sourced values.
//!
//! An unrecognized or unparsable value falls back to its documented default
//! rather than failing startup. A value parses only if it is a non-empty
//! string of decimal digits whose value fits the option's type.

use vstd::prelude::*;
use vstd::utf8::encode_utf8;

verus! {

/// Default connection-establishment timeout, in milliseconds.
pub const DEFAULT_CONNECTION_TIMEOUT_MS: u64 = 30_000;

/// Default overall per-request timeout, in milliseconds.
pub const DEFAULT_REQUEST_TIMEOUT_MS: u64 = 60_000;

/// Default upper bound on retry attempts after the initial attempt.
pub const DEFAULT_MAX_RETRIES: u32 = 3;

/// Default unit of retry backoff, in milliseconds.
pub const DEFAULT_RETRY_DELAY_MS: u64 = 1_000;

/// A decimal digit, as a byte.
pub open spec fn spec_digit(b: u8) -> bool {
    48 <= b <= 57
}

/// Every byte of `b` is a decimal digit, and there is at least one.
pub open spec fn spec_all_digits(b: Seq<u8>) -> bool {
    b.len() > 0 && forall|i: int| 0 <= i < b.len() ==> spec_digit(#[trigger] b[i])
}

/// The value of a digit string, most significant digit first.
pub open spec fn spec_digits_val(b: Seq<u8>) -> int
    decreases b.len(),
{
    if b.len() == 0 {
        0
    } else {
        spec_digits_val(b.drop_last()) * 10 + (b.last() - 48)
    }
}

/// The number a byte string writes in decimal, if it is all digits and fits
/// a `u64`.
pub open spec fn spec_parse_u64_bytes(b: Seq<u8>) -> Option<u64> {
    if spec_all_digits(b) && spec_digits_val(b) <= u64::MAX {
        Some(spec_digits_val(b) as u64)
    } else {
        None
    }
}

/// The number a byte string writes in decimal, if it is all digits and fits
/// a `u32`.
pub open spec fn spec_parse_u32_bytes(b: Seq<u8>) -> Option<u32> {
    if spec_all_digits(b) && spec_digits_val(b) <= u32::MAX {
        Some(spec_digits_val(b) as u32)
    } else {
        None
    }
}

/// An environment value resolved against a `u64` option's default.
pub open spec fn spec_env_u64(v: Option<Seq<char>>, default: u64) -> u64 {
    match v {
        Some(s) => match spec_parse_u64_bytes(encode_utf8(s)) {
            Some(x) => x,
            None => default,
        },
        None => default,
    }
}

/// An environment value resolved against a `u32` option's default.
pub open spec fn spec_env_u32(v: Option<Seq<char>>, default: u32) -> u32 {
    match v {
        Some(s) => match spec_parse_u32_bytes(encode_utf8(s)) {
            Some(x) => x,
            None => default,
        },
        None => default,
    }
}

/// The value of a digit string is non-negative.
proof fn lemma_digits_val_nonneg(b: Seq<u8>)
    requires
        forall|i: int| 0 <= i < b.len() ==> spec_digit(#[trigger] b[i]),
    ensures
        spec_digits_val(b) >= 0,
    decreases b.len(),
{
    if b.len() == 0 {
    } else {
        assert(forall|i: int| 0 <= i < b.len() - 1 ==> spec_digit(#[trigger] b.drop_last()[i]));
        lemma_digits_val_nonneg(b.drop_last());
    }
}

/// A digit string is worth at least any of its prefixes.
proof fn lemma_digits_val_prefix_le(b: Seq<u8>, j: int)
    requires
        forall|i: int| 0 <= i < b.len() ==> spec_digit(#[trigger] b[i]),
        0 <= j <= b.len(),
    ensures
        spec_digits_val(b.take(j)) <= spec_digits_val(b),
    decreases b.len() - j,
{
    if j == b.len() {
        assert(b.take(j) =~= b);
    } else {
        lemma_digits_val_prefix_le(b, j + 1);
        let p = b.take(j + 1);
        assert(p.drop_last() =~= b.take(j));
        assert(forall|i: int| 0 <= i < j ==> spec_digit(#[trigger] b.take(j)[i]));
        lemma_digits_val_nonneg(b.take(j));
        assert(spec_digits_val(p) == spec_digits_val(b.take(j)) * 10 + (b[j] - 48));
        assert(spec_digits_val(b.take(j)) * 10 >= spec_digits_val(b.take(j))) by (nonlinear_arith)
            requires
                spec_digits_val(b.take(j)) >= 0,
        ;
    }
}

/// Parse a non-empty all-digit string as a `u64`, or report that it is not
/// one.
pub fn parse_u64_digits(s: &String) -> (r: Option<u64>)
    ensures
        r == spec_parse_u64_bytes(encode_utf8(s@)),
{
    let bytes = s.as_str().as_bytes_vec();
    let ghost bv = encode_utf8(s@);
    let n = bytes.len();
    if n == 0 {
        return None;
    }
    let mut acc: u64 = 0;
    let mut i: usize = 0;
    while i < n
        invariant
            bv == encode_utf8(s@),
            0 < n == bv.len(),
            bytes@ == bv,
            0 <= i <= n,
            forall|j: int| 0 <= j < i as int ==> spec_digit(#[trigger] bv[j]),
            acc == spec_digits_val(bv.take(i as int)),
        decreases n - i,
    {
        let d = bytes[i];
        if d < 48 || d > 57 {
            proof {
                assert(!spec_digit(bv[i as int]));
            }
            return None;
        }
        proof {
            assert(bv.take(i + 1).drop_last() =~= bv.take(i as int));
            assert(bv.take(i + 1).last() == bv[i as int]);
        }
        let step = match acc.checked_mul(10) {
            Some(x) => x.checked_add((d - 48) as u64),
            None => None,
        };
        match step {
            Some(x) => {
                acc = x;
            },
            None => {
                proof {
                    assert(spec_digits_val(bv.take(i + 1)) > u64::MAX);
                    if spec_all_digits(bv) {
                        lemma_digits_val_prefix_le(bv, i + 1);
                    }
                }
                return None;
            },
        }
        i = i + 1;
    }
    proof {
        assert(bv.take(n as int) =~= bv);
    }
    Some(acc)
}

/// Parse a non-empty all-digit string as a `u32`, or report that it is not
/// one.
pub fn parse_u32_digits(s: &String) -> (r: Option<u32>)
    ensures
        r == spec_parse_u32_bytes(encode_utf8(s@)),
{
    let r64 = parse_u64_digits(s);
    proof {
        let bv = encode_utf8(s@);
        if spec_all_digits(bv) {
            assert(forall|i: int| 0 <= i < bv.len() ==> spec_digit(#[trigger] bv[i]));
            lemma_digits_val_nonneg(bv);
        }
    }
    match r64 {
        Some(v) => if v <= u32::MAX as u64 {
            Some(v as u32)
        } else {
            None
        },
        None => None,
    }
}

/// The recognized configuration options, resolved to concrete values.
#[derive(Clone, Copy, Debug, PartialEq, Eq, Structural)]
pub struct Config {
    /// Connection-establishment timeout of the transport client, in
    /// milliseconds.
    pub connection_timeout_ms: u64,
    /// Overall per-request timeout of the transport client, in milliseconds.
    pub request_timeout_ms: u64,
    /// Upper bound on retry attempts after the initial attempt.
    pub max_retries: u32,
    /// Unit of linear retry backoff, in milliseconds.
    pub retry_delay_ms: u64,
}

impl Config {
    /// Resolve the four recognized options from their environment-sourced
    /// values: each field is its value's decimal reading, or the documented
    /// default where the value is absent or unparsable.
    pub fn resolve(
        connection_timeout: Option<String>,
        request_timeout: Option<String>,
        max_retries: Option<String>,
        retry_delay: Option<String>,
    ) -> (c: Config)
        ensures
            c.connection_timeout_ms == spec_env_u64(
                connection_timeout.deep_view(),
                DEFAULT_CONNECTION_TIMEOUT_MS,
            ),
            c.request_timeout_ms == spec_env_u64(
                request_timeout.deep_view(),
                DEFAULT_REQUEST_TIMEOUT_MS,
            ),
            c.max_retries == spec_env_u32(max_retries.deep_view(), DEFAULT_MAX_RETRIES),
            c.retry_delay_ms == spec_env_u64(retry_delay.deep_view(), DEFAULT_RETRY_DELAY_MS),
    {
        let connection_timeout_ms = match connection_timeout {
            Some(s) => match parse_u64_digits(&s) {
                Some(x) => x,
                None => DEFAULT_CONNECTION_TIMEOUT_MS,
            },
            None => DEFAULT_CONNECTION_TIMEOUT_MS,
        };
        let request_timeout_ms = match request_timeout {
            Some(s) => match parse_u64_digits(&s) {
                Some(x) => x,
                None => DEFAULT_REQUEST_TIMEOUT_MS,
            },
            None => DEFAULT_REQUEST_TIMEOUT_MS,
        };
        let max_retries_v = match max_retries {
            Some(s) => match parse_u32_digits(&s) {
                Some(x) => x,
                None => DEFAULT_MAX_RETRIES,
            },
            None => DEFAULT_MAX_RETRIES,
        };
        let retry_delay_ms = match retry_delay {
            Some(s) => match parse_u64_digits(&s) {
                Some(x) => x,
                None => DEFAULT_RETRY_DELAY_MS,
            },
            None => DEFAULT_RETRY_DELAY_MS,
        };
        Config {
            connection_timeout_ms,
            request_timeout_ms,
            max_retries: max_retries_v,
            retry_delay_ms,
        }
    }
}

} // verus!
