//! Configuration of the networked transport: the broker address and the
//! request timeout.
//!
//! Reading the environment happens outside this crate; the raw values land
//! here as optional strings and are interpreted by verified logic: an empty
//! or absent value falls back to the default, and a timeout that is not a
//! plain decimal number of milliseconds falls back to the default timeout.

use vstd::prelude::*;
use vstd::string::*;

verus! {

/// The default address of the distributed bus broker.
pub const DEFAULT_LATTICE_HOST: &'static str = "127.0.0.1";

/// The default request timeout of the networked transport, in
/// milliseconds.
pub const DEFAULT_RPC_TIMEOUT_MILLIS: u64 = 500;

/// Whether `c` is a decimal digit.
pub open spec fn spec_is_digit(c: char) -> bool {
    48 <= c as u32 <= 57
}

/// The value of the decimal digit string `s`, without a bound.
pub open spec fn spec_digits_value(s: Seq<char>) -> int
    decreases s.len(),
{
    if s.len() == 0 {
        0
    } else {
        spec_digits_value(s.drop_last()) * 10 + (s.last() as u32 - 48)
    }
}

/// The digits of a decimal number: everything after an optional leading
/// plus sign.
pub open spec fn spec_u64_digits(s: Seq<char>) -> Seq<char> {
    if s.len() > 0 && s[0] == '+' {
        s.drop_first()
    } else {
        s
    }
}

/// Whether `s` is a decimal number that fits a `u64`: an optional leading
/// plus sign, then digits only, as Rust's `u64` parsing accepts.
pub open spec fn spec_is_u64_decimal(s: Seq<char>) -> bool {
    let d = spec_u64_digits(s);
    d.len() > 0 && (forall|i: int| 0 <= i < d.len() ==> spec_is_digit(#[trigger] d[i]))
        && spec_digits_value(d) <= u64::MAX
}

/// A digit string's value is not negative.
proof fn lemma_digits_value_nonneg(s: Seq<char>)
    requires
        forall|j: int| 0 <= j < s.len() ==> spec_is_digit(#[trigger] s[j]),
    ensures
        spec_digits_value(s) >= 0,
    decreases s.len(),
{
    if s.len() > 0 {
        assert(forall|j: int|
            0 <= j < s.drop_last().len() ==> spec_is_digit(#[trigger] s.drop_last()[j]));
        lemma_digits_value_nonneg(s.drop_last());
        assert(spec_is_digit(s.last()));
    }
}

/// A longer digit string is worth at least as much as its prefix.
proof fn lemma_digits_value_monotone(s: Seq<char>, i: int)
    requires
        0 <= i <= s.len(),
        forall|j: int| 0 <= j < s.len() ==> spec_is_digit(#[trigger] s[j]),
    ensures
        spec_digits_value(s.take(i)) <= spec_digits_value(s),
    decreases s.len() - i,
{
    if i < s.len() {
        lemma_digits_value_monotone(s, i + 1);
        assert(s.take(i + 1).drop_last() =~= s.take(i));
        assert(s.take(i + 1).last() == s[i]);
        assert(spec_is_digit(s[i]));
        assert(forall|j: int|
            0 <= j < s.take(i).len() ==> spec_is_digit(#[trigger] s.take(i)[j]));
        lemma_digits_value_nonneg(s.take(i));
        assert(spec_digits_value(s.take(i)) <= spec_digits_value(s.take(i + 1)));
    } else {
        assert(s.take(i) =~= s);
    }
}

/// Parses a decimal `u64` as Rust's `u64` parsing does: an optional
/// leading plus sign, then at least one digit; succeeds exactly when the
/// value fits, and yields that value.
pub fn parse_u64(s: &str) -> (r: Option<u64>)
    ensures
        r matches Some(v) ==> spec_is_u64_decimal(s@) && v == spec_digits_value(
            spec_u64_digits(s@),
        ),
        r is None ==> !spec_is_u64_decimal(s@),
{
    let n = s.unicode_len();
    if n == 0 {
        return None;
    }
    let start: usize = if s.get_char(0) == '+' {
        1
    } else {
        0
    };
    let ghost d = spec_u64_digits(s@);
    proof {
        assert(d.len() == n - start);
        assert(forall|j: int| 0 <= j < d.len() ==> #[trigger] d[j] == s@[j + start]);
    }
    if n == start {
        return None;
    }
    let mut acc: u64 = 0;
    let mut i: usize = start;
    while i < n
        invariant
            start <= i <= n,
            n == s@.len(),
            start <= 1,
            d == spec_u64_digits(s@),
            d.len() == n - start,
            forall|j: int| 0 <= j < d.len() ==> #[trigger] d[j] == s@[j + start],
            forall|j: int| 0 <= j < i - start ==> spec_is_digit(#[trigger] d[j]),
            acc == spec_digits_value(d.take(i - start)),
        decreases n - i,
    {
        let c = s.get_char(i);
        let cv = c as u32;
        if cv < 48 || cv > 57 {
            proof {
                assert(!spec_is_digit(d[i - start]));
            }
            return None;
        }
        let dv = (cv - 48) as u64;
        proof {
            assert(d.take(i - start + 1).drop_last() =~= d.take(i - start));
            assert(d.take(i - start + 1).last() == d[i - start]);
        }
        if acc > (u64::MAX - dv) / 10 {
            proof {
                assert(spec_digits_value(d.take(i - start + 1)) > u64::MAX);
                if forall|j: int| 0 <= j < d.len() ==> spec_is_digit(#[trigger] d[j]) {
                    lemma_digits_value_monotone(d, i - start + 1);
                }
            }
            return None;
        }
        acc = acc * 10 + dv;
        i = i + 1;
    }
    proof {
        assert(d.take(d.len() as int) =~= d);
    }
    Some(acc)
}

/// The environment value to use: the raw value when it is present and
/// non-empty, the default otherwise.
pub fn env_or_default(raw: Option<String>, default: &str) -> (r: String)
    ensures
        r@ == (match raw {
            Some(v) => if v@.len() > 0 {
                v@
            } else {
                default@
            },
            None => default@,
        }),
{
    match raw {
        Some(v) => {
            if v.as_str().unicode_len() > 0 {
                v
            } else {
                default.to_owned()
            }
        },
        None => default.to_owned(),
    }
}

/// The request timeout to use, in milliseconds: the raw value when it is a
/// plain decimal number, the default otherwise.
pub fn timeout_millis(raw: Option<String>) -> (r: u64)
    ensures
        r == (match raw {
            Some(v) => if spec_is_u64_decimal(v@) {
                spec_digits_value(spec_u64_digits(v@)) as u64
            } else {
                DEFAULT_RPC_TIMEOUT_MILLIS as u64
            },
            None => DEFAULT_RPC_TIMEOUT_MILLIS as u64,
        }),
{
    match raw {
        Some(v) => {
            match parse_u64(v.as_str()) {
                Some(n) => n,
                None => DEFAULT_RPC_TIMEOUT_MILLIS,
            }
        },
        None => DEFAULT_RPC_TIMEOUT_MILLIS,
    }
}

} // verus!
