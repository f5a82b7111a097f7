//! Semantic version strings for plugin discovery: parsing
//! `major.minor.patch` and the compatibility rule the host negotiates
//! against a library's declared version.

use vstd::prelude::*;

verus! {

/// A parsed semantic version.
#[derive(Debug, Clone, Copy, PartialEq, Eq, Structural)]
pub struct VersionNumber {
    pub major: u32,
    pub minor: u32,
    pub patch: u32,
}

/// Whether `c` is an ASCII decimal digit.
pub open spec fn is_digit(c: char) -> bool {
    '0' <= c && c <= '9'
}

/// Numeric value of a digit character.
pub open spec fn digit_val(c: char) -> int {
    c as int - '0' as int
}

/// A nonempty run of decimal digits.
pub open spec fn all_digits(s: Seq<char>) -> bool {
    s.len() > 0 && forall|i: int| 0 <= i < s.len() ==> is_digit(#[trigger] s[i])
}

/// The number a digit run denotes, most significant digit first.
pub open spec fn digits_value(s: Seq<char>) -> int
    decreases s.len(),
{
    if s.len() == 0 {
        0
    } else {
        digits_value(s.drop_last()) * 10 + digit_val(s.last())
    }
}

/// Index of the first `'.'` in `s` at or after `from`, or `s.len()` if
/// there is none.
pub open spec fn first_dot(s: Seq<char>, from: int) -> int
    decreases s.len() - from,
{
    if from >= s.len() {
        s.len() as int
    } else if s[from] == '.' {
        from
    } else {
        first_dot(s, from + 1)
    }
}

/// The version a string denotes: exactly three dot-separated nonempty digit
/// runs, each of whose values fits in 32 bits; anything else denotes no
/// version.
pub open spec fn spec_parse_version(s: Seq<char>) -> Option<VersionNumber> {
    let p = first_dot(s, 0);
    let q = first_dot(s, p + 1);
    if p < s.len() && q < s.len() {
        let major = s.subrange(0, p);
        let minor = s.subrange(p + 1, q);
        let patch = s.subrange(q + 1, s.len() as int);
        if all_digits(major) && all_digits(minor) && all_digits(patch) && digits_value(major)
            <= u32::MAX && digits_value(minor) <= u32::MAX && digits_value(patch) <= u32::MAX {
            Some(
                VersionNumber {
                    major: digits_value(major) as u32,
                    minor: digits_value(minor) as u32,
                    patch: digits_value(patch) as u32,
                },
            )
        } else {
            None
        }
    } else {
        None
    }
}

proof fn lemma_digits_value_nonneg(s: Seq<char>)
    requires
        forall|i: int| 0 <= i < s.len() ==> is_digit(#[trigger] s[i]),
    ensures
        digits_value(s) >= 0,
    decreases s.len(),
{
    if s.len() > 0 {
        lemma_digits_value_nonneg(s.drop_last());
    }
}

/// Appending digits never shrinks the denoted number: the value of `s` is
/// at least the value of any of its prefixes.
proof fn lemma_digits_value_prefix_bound(s: Seq<char>, k: int)
    requires
        0 <= k <= s.len(),
        forall|i: int| 0 <= i < s.len() ==> is_digit(#[trigger] s[i]),
    ensures
        digits_value(s) >= digits_value(s.subrange(0, k)),
    decreases s.len() - k,
{
    if k == s.len() {
        assert(s.subrange(0, k) =~= s);
    } else {
        let shorter = s.subrange(0, k);
        let longer = s.subrange(0, k + 1);
        assert(longer.drop_last() =~= shorter);
        assert(longer.last() == s[k]);
        assert(forall|i: int| 0 <= i < shorter.len() ==> is_digit(#[trigger] shorter[i]));
        lemma_digits_value_nonneg(shorter);
        assert(digits_value(longer) == digits_value(shorter) * 10 + digit_val(s[k]));
        assert(digits_value(shorter) * 10 >= digits_value(shorter)) by (nonlinear_arith)
            requires
                digits_value(shorter) >= 0,
        ;
        lemma_digits_value_prefix_bound(s, k + 1);
    }
}

/// Parses the digit run `s[a..b]`: `Some` exactly when the run is nonempty,
/// all digits, and its value fits in 32 bits.
fn parse_digits(s: &str, a: usize, b: usize) -> (r: Option<u32>)
    requires
        a <= b <= s@.len(),
    ensures
        match r {
            Some(v) => all_digits(s@.subrange(a as int, b as int)) && v == digits_value(
                s@.subrange(a as int, b as int),
            ),
            None => !(all_digits(s@.subrange(a as int, b as int)) && digits_value(
                s@.subrange(a as int, b as int),
            ) <= u32::MAX),
        },
{
    let ghost region = s@.subrange(a as int, b as int);
    if a == b {
        return None;
    }
    let mut val: u64 = 0;
    let mut i = a;
    while i < b
        invariant
            a <= i <= b <= s@.len(),
            region == s@.subrange(a as int, b as int),
            forall|j: int| a <= j < i ==> is_digit(#[trigger] s@[j]),
            val == digits_value(s@.subrange(a as int, i as int)),
            val <= u32::MAX,
        decreases b - i,
    {
        let c = s.get_char(i);
        let cu = c as u32;
        if cu < 48 || cu > 57 {
            proof {
                assert(!is_digit(s@[i as int]));
                assert(region[i - a] == s@[i as int]);
            }
            return None;
        }
        let d = (cu - 48) as u64;
        let next_val = val * 10 + d;
        proof {
            let prev = s@.subrange(a as int, i as int);
            let cur = s@.subrange(a as int, i + 1 as int);
            assert(cur.drop_last() =~= prev);
            assert(cur.last() == s@[i as int]);
            assert(digits_value(cur) == digits_value(prev) * 10 + digit_val(s@[i as int]));
        }
        if next_val > u32::MAX as u64 {
            proof {
                if all_digits(region) {
                    assert(region =~= s@.subrange(a as int, b as int));
                    assert(forall|j: int|
                        0 <= j < region.len() ==> is_digit(#[trigger] region[j]));
                    assert(region.subrange(0, i + 1 - a as int) =~= s@.subrange(
                        a as int,
                        i + 1 as int,
                    ));
                    lemma_digits_value_prefix_bound(region, i + 1 - a as int);
                }
            }
            return None;
        }
        val = next_val;
        i = i + 1;
    }
    proof {
        assert(s@.subrange(a as int, i as int) =~= region);
    }
    Some(val as u32)
}

proof fn lemma_first_dot_is(s: Seq<char>, from: int, d: int)
    requires
        0 <= from <= d <= s.len(),
        forall|j: int| from <= j < d ==> s[j] != '.',
        d < s.len() ==> s[d] == '.',
    ensures
        first_dot(s, from) == d || (d == s.len() && first_dot(s, from) == s.len()),
    decreases d - from,
{
    if from < d {
        lemma_first_dot_is(s, from + 1, d);
    }
}

/// Finds the first `'.'` at or after `from`, or the string's length.
fn find_dot(s: &str, from: usize, n: usize) -> (d: usize)
    requires
        from <= n,
        n == s@.len(),
    ensures
        d == first_dot(s@, from as int),
        from <= d <= n,
        d < n ==> s@[d as int] == '.',
        forall|j: int| from <= j < d ==> s@[j] != '.',
{
    let mut d = from;
    while d < n
        invariant
            from <= d <= n,
            n == s@.len(),
            forall|j: int| from <= j < d ==> s@[j] != '.',
        decreases n - d,
    {
        let c = s.get_char(d);
        if c == '.' {
            proof {
                lemma_first_dot_is(s@, from as int, d as int);
            }
            return d;
        }
        d = d + 1;
    }
    proof {
        lemma_first_dot_is(s@, from as int, d as int);
    }
    d
}

/// Parses a `major.minor.patch` version string; returns `None` exactly when
/// the string does not denote a version.
pub fn parse_version(s: &str) -> (r: Option<VersionNumber>)
    ensures
        r == spec_parse_version(s@),
{
    let n = s.unicode_len();
    let p = find_dot(s, 0, n);
    if p == n {
        return None;
    }
    let q = find_dot(s, p + 1, n);
    if q == n {
        return None;
    }
    let major = match parse_digits(s, 0, p) {
        Some(v) => v,
        None => {
            return None;
        },
    };
    let minor = match parse_digits(s, p + 1, q) {
        Some(v) => v,
        None => {
            return None;
        },
    };
    let patch = match parse_digits(s, q + 1, n) {
        Some(v) => v,
        None => {
            return None;
        },
    };
    Some(VersionNumber { major, minor, patch })
}

/// The compatibility rule the host applies at discovery: the library's
/// version is compatible with the host's expected version exactly when the
/// major versions agree, and, for the pre-1.0 line (major 0), the library's
/// minor version is at least the expected one.
pub open spec fn spec_version_compatible(expected: VersionNumber, actual: VersionNumber) -> bool {
    expected.major == actual.major && !(expected.major == 0 && expected.minor > actual.minor)
}

/// Whether a library declaring `actual` may serve a host expecting
/// `expected`.
pub fn version_compatible(expected: &VersionNumber, actual: &VersionNumber) -> (r: bool)
    ensures
        r == spec_version_compatible(*expected, *actual),
{
    expected.major == actual.major && !(expected.major == 0 && expected.minor > actual.minor)
}

} // verus!
