//! Program version numbers: the `major.minor.patch` shape, parsed from a
//! version string or fished out of a program's version banner. Actually
//! running programs to obtain such banners happens outside the library.

use vstd::prelude::*;
use crate::text::{dec_str_nat, u64_to_string};

verus! {

/// A decimal digit.
pub open spec fn is_digit(c: char) -> bool {
    48 <= (c as u32) <= 57
}

/// The digit's value.
pub open spec fn digit_val(c: char) -> int {
    (c as u32) - 48
}

fn is_digit_char(c: char) -> (r: bool)
    ensures
        r == is_digit(c),
{
    let u = c as u32;
    48 <= u && u <= 57
}

/// The value of a digit string, most significant first.
pub open spec fn dec_val(s: Seq<char>) -> int
    decreases s.len(),
{
    if s.len() == 0 {
        0
    } else {
        dec_val(s.drop_last()) * 10 + digit_val(s.last())
    }
}

/// A non-empty, all-digit field.
pub open spec fn is_digits(s: Seq<char>) -> bool {
    s.len() > 0 && forall|i: int| 0 <= i < s.len() ==> is_digit(#[trigger] s[i])
}

/// A parsable version field: digits whose value fits `u32`.
pub open spec fn field_ok(s: Seq<char>) -> bool {
    is_digits(s) && dec_val(s) <= u32::MAX
}

/// Parses a digit field into its value; `None` when the field is empty,
/// holds a non-digit, or overflows `u32`.
pub fn parse_u32(s: &str) -> (r: Option<u32>)
    ensures
        match r {
            Some(v) => field_ok(s@) && v == dec_val(s@),
            None => !field_ok(s@),
        },
{
    let n = s.unicode_len();
    if n == 0 {
        return None;
    }
    let mut acc: u64 = 0;
    let mut i: usize = 0;
    while i < n
        invariant
            0 <= i <= n,
            n == s@.len(),
            n > 0,
            forall|j: int| 0 <= j < i ==> is_digit(#[trigger] s@[j]),
            acc == dec_val(s@.take(i as int)),
            acc <= u32::MAX,
        decreases n - i,
    {
        let c = s.get_char(i);
        if !is_digit_char(c) {
            return None;
        }
        let d: u64 = (c as u32) as u64 - 48;
        let next: u64 = acc * 10 + d;
        proof {
            assert(s@.take(i + 1 as int).drop_last() =~= s@.take(i as int));
            assert(s@.take(i + 1 as int).last() == s@[i as int]);
        }
        if next > u32::MAX as u64 {
            proof {
                if is_digits(s@) {
                    lemma_dec_val_monotone(s@, i + 1 as int);
                }
            }
            return None;
        }
        acc = next;
        i = i + 1;
    }
    proof {
        assert(s@.take(n as int) =~= s@);
    }
    Some(acc as u32)
}

/// A longer digit prefix never has a smaller value.
proof fn lemma_dec_val_monotone(s: Seq<char>, i: int)
    requires
        0 <= i <= s.len(),
        forall|j: int| 0 <= j < s.len() ==> is_digit(#[trigger] s[j]),
    ensures
        dec_val(s.take(i)) <= dec_val(s),
    decreases s.len() - i,
{
    if i < s.len() {
        lemma_dec_val_monotone(s, i + 1);
        assert(s.take(i + 1).drop_last() =~= s.take(i));
        assert(s.take(i + 1).last() == s[i]);
        lemma_dec_val_nonneg(s.take(i));
        assert(dec_val(s.take(i)) <= dec_val(s.take(i + 1)));
    } else {
        assert(s.take(i) =~= s);
    }
}

proof fn lemma_dec_val_nonneg(s: Seq<char>)
    requires
        forall|j: int| 0 <= j < s.len() ==> is_digit(#[trigger] s[j]),
    ensures
        dec_val(s) >= 0,
    decreases s.len(),
{
    if s.len() > 0 {
        assert forall|j: int| 0 <= j < s.drop_last().len() implies is_digit(
            #[trigger] s.drop_last()[j],
        ) by {
            assert(s.drop_last()[j] == s[j]);
        }
        lemma_dec_val_nonneg(s.drop_last());
    }
}

/// The text before the first dot; all of `s` when it has no dot.
pub open spec fn before_dot(s: Seq<char>) -> Seq<char>
    decreases s.len(),
{
    if s.len() == 0 {
        s
    } else if s[0] == '.' {
        Seq::empty()
    } else {
        seq![s[0]] + before_dot(s.drop_first())
    }
}

/// The text after the first dot; `None` when `s` has no dot.
pub open spec fn after_dot(s: Seq<char>) -> Option<Seq<char>>
    decreases s.len(),
{
    if s.len() == 0 {
        None
    } else if s[0] == '.' {
        Some(s.drop_first())
    } else {
        after_dot(s.drop_first())
    }
}

/// With the first dot at `k` (or no dot and `k` the length), the split is
/// the prefix and the remainder.
proof fn lemma_dot_split(s: Seq<char>, k: int)
    requires
        0 <= k <= s.len(),
        forall|j: int| 0 <= j < k ==> (#[trigger] s[j]) != '.',
        k < s.len() ==> s[k] == '.',
    ensures
        before_dot(s) == s.take(k),
        after_dot(s) == if k < s.len() {
            Some(s.skip(k + 1))
        } else {
            Option::<Seq<char>>::None
        },
    decreases k,
{
    if k == 0 {
        if s.len() == 0 {
            assert(before_dot(s) =~= s.take(0));
        } else {
            assert(s[0] == '.');
            assert(before_dot(s) =~= s.take(0));
            assert(s.drop_first() =~= s.skip(1));
        }
    } else {
        assert(s[0] != '.');
        assert forall|j: int| 0 <= j < k - 1 implies (#[trigger] s.drop_first()[j]) != '.' by {
            assert(s.drop_first()[j] == s[j + 1]);
        }
        lemma_dot_split(s.drop_first(), k - 1);
        assert(seq![s[0]] + s.drop_first().take(k - 1) =~= s.take(k));
        if k < s.len() {
            assert(s.drop_first().skip(k) =~= s.skip(k + 1));
        }
    }
}

/// The `major.minor.patch` triple a version string denotes: the first
/// three dot-separated fields, each a digit string fitting `u32`, missing
/// fields taken as zero. `None` when a present field is not parsable.
pub open spec fn version_of_string(s: Seq<char>) -> Option<(u32, u32, u32)> {
    let f1 = before_dot(s);
    if !field_ok(f1) {
        None
    } else {
        match after_dot(s) {
            None => Some((dec_val(f1) as u32, 0u32, 0u32)),
            Some(r1) => {
                let f2 = before_dot(r1);
                if !field_ok(f2) {
                    None
                } else {
                    match after_dot(r1) {
                        None => Some((dec_val(f1) as u32, dec_val(f2) as u32, 0u32)),
                        Some(r2) => {
                            let f3 = before_dot(r2);
                            if !field_ok(f3) {
                                None
                            } else {
                                Some((dec_val(f1) as u32, dec_val(f2) as u32, dec_val(f3) as u32))
                            }
                        },
                    }
                }
            },
        }
    }
}

/// A program's version.
#[derive(Debug, PartialEq, Eq, Structural, Clone, Copy)]
pub struct Version {
    pub major: u32,
    pub minor: u32,
    pub patch: u32,
}

/// Splits off the field before the first dot, and what follows it.
fn split_first_dot<'a>(s: &'a str) -> (r: (&'a str, Option<&'a str>))
    ensures
        r.0@ == before_dot(s@),
        match r.1 {
            Some(rest) => after_dot(s@) matches Some(t) && t == rest@,
            None => after_dot(s@) is None,
        },
{
    let n = s.unicode_len();
    let mut k: usize = 0;
    while k < n && s.get_char(k) != '.'
        invariant
            0 <= k <= n,
            n == s@.len(),
            forall|j: int| 0 <= j < k ==> (#[trigger] s@[j]) != '.',
        decreases n - k,
    {
        k = k + 1;
    }
    proof {
        lemma_dot_split(s@, k as int);
    }
    let head = s.substring_char(0, k);
    if k < n {
        (head, Some(s.substring_char(k + 1, n)))
    } else {
        (head, None)
    }
}

impl Version {
    /// A version from its three numbers.
    pub fn custom(major: u32, minor: u32, patch: u32) -> (v: Self)
        ensures
            v.major == major,
            v.minor == minor,
            v.patch == patch,
    {
        Version { major, minor, patch }
    }

    /// The major version (first number).
    pub fn major(&self) -> (n: u32)
        ensures
            n == self.major,
    {
        self.major
    }

    /// The minor version (second number).
    pub fn minor(&self) -> (n: u32)
        ensures
            n == self.minor,
    {
        self.minor
    }

    /// The patch version (third number).
    pub fn patch(&self) -> (n: u32)
        ensures
            n == self.patch,
    {
        self.patch
    }

    /// The version rendered as `major.minor.patch`.
    pub fn to_text(&self) -> (r: String)
        ensures
            r@ == dec_str_nat(self.major as int) + "."@ + dec_str_nat(self.minor as int) + "."@
                + dec_str_nat(self.patch as int),
    {
        let mut r = u64_to_string(self.major as u64);
        r.append(".");
        r.append(u64_to_string(self.minor as u64).as_str());
        r.append(".");
        r.append(u64_to_string(self.patch as u64).as_str());
        r
    }

    /// Parses a version string: up to three dot-separated decimal fields,
    /// any missing field taken as zero. `None` when a present field is
    /// empty, non-numeric or too large.
    pub fn parse(s: &str) -> (r: Option<Version>)
        ensures
            match r {
                Some(v) => version_of_string(s@) matches Some(t) && v.major == t.0 && v.minor
                    == t.1 && v.patch == t.2,
                None => version_of_string(s@) is None,
            },
    {
        let (f1, rest1) = split_first_dot(s);
        let major = match parse_u32(f1) {
            Some(v) => v,
            None => {
                return None;
            },
        };
        let rest1 = match rest1 {
            Some(r) => r,
            None => {
                return Some(Version { major, minor: 0, patch: 0 });
            },
        };
        let (f2, rest2) = split_first_dot(rest1);
        let minor = match parse_u32(f2) {
            Some(v) => v,
            None => {
                return None;
            },
        };
        let rest2 = match rest2 {
            Some(r) => r,
            None => {
                return Some(Version { major, minor, patch: 0 });
            },
        };
        let (f3, _rest3) = split_first_dot(rest2);
        let patch = match parse_u32(f3) {
            Some(v) => v,
            None => {
                return None;
            },
        };
        Some(Version { major, minor, patch })
    }
}

} // verus!
verus! {

/// The length of the digit run starting at `i`.
pub open spec fn digit_run_len(s: Seq<char>, i: int) -> int
    decreases s.len() - i,
{
    if 0 <= i < s.len() && is_digit(s[i]) {
        1 + digit_run_len(s, i + 1)
    } else {
        0
    }
}

/// A `digits.digits.digits` shape starts at `i`, with each digit run
/// maximal.
pub open spec fn version_match_at(s: Seq<char>, i: int) -> bool {
    let a = i + digit_run_len(s, i);
    let b = a + 1 + digit_run_len(s, a + 1);
    &&& digit_run_len(s, i) > 0
    &&& 0 <= i
    &&& a < s.len() && s[a] == '.'
    &&& digit_run_len(s, a + 1) > 0
    &&& b < s.len() && s[b] == '.'
    &&& digit_run_len(s, b + 1) > 0
}

/// Where the match starting at `i` ends.
pub open spec fn version_match_end(s: Seq<char>, i: int) -> int {
    let a = i + digit_run_len(s, i);
    let b = a + 1 + digit_run_len(s, a + 1);
    b + 1 + digit_run_len(s, b + 1)
}

/// The leftmost version-shaped substring at or after `i`.
pub open spec fn find_version_from(s: Seq<char>, i: int) -> Option<Seq<char>>
    decreases s.len() - i,
{
    if !(0 <= i < s.len()) {
        None
    } else if version_match_at(s, i) {
        Some(s.subrange(i, version_match_end(s, i)))
    } else {
        find_version_from(s, i + 1)
    }
}

/// The leftmost version-shaped substring of `s`.
pub open spec fn first_version_str(s: Seq<char>) -> Option<Seq<char>> {
    find_version_from(s, 0)
}

proof fn lemma_digit_run(s: Seq<char>, i: int, j: int)
    requires
        0 <= i <= j <= s.len(),
        forall|k: int| i <= k < j ==> is_digit(#[trigger] s[k]),
        j < s.len() ==> !is_digit(s[j]),
    ensures
        digit_run_len(s, i) == j - i,
    decreases j - i,
{
    if i < j {
        lemma_digit_run(s, i + 1, j);
    }
}

/// Digit runs stay within the text.
proof fn lemma_digit_run_bounded(s: Seq<char>, i: int)
    requires
        0 <= i <= s.len(),
    ensures
        0 <= digit_run_len(s, i) <= s.len() - i,
    decreases s.len() - i,
{
    if i < s.len() && is_digit(s[i]) {
        lemma_digit_run_bounded(s, i + 1);
    }
}

proof fn lemma_find_version_skip(s: Seq<char>, i: int)
    requires
        0 <= i <= s.len(),
        forall|j: int| 0 <= j < i ==> !version_match_at(s, j),
    ensures
        first_version_str(s) == find_version_from(s, i),
    decreases i,
{
    if i > 0 {
        assert forall|j: int| 0 <= j < i - 1 implies !version_match_at(s, j) by {}
        lemma_find_version_skip(s, i - 1);
        assert(!version_match_at(s, i - 1));
    }
}

/// The length of the digit run starting at `i`, and where it ends.
fn digit_run(s: &str, i: usize) -> (r: usize)
    requires
        i <= s@.len(),
    ensures
        r == digit_run_len(s@, i as int),
        i + r <= s@.len(),
{
    let n = s.unicode_len();
    let mut j: usize = i;
    while j < n && is_digit_char(s.get_char(j))
        invariant
            i <= j <= n,
            n == s@.len(),
            forall|k: int| i <= k < j ==> is_digit(#[trigger] s@[k]),
        decreases n - j,
    {
        j = j + 1;
    }
    proof {
        lemma_digit_run(s@, i as int, j as int);
    }
    j - i
}

/// The leftmost substring of `text` shaped like a version number —
/// digits, a dot, digits, a dot, digits, each run maximal — or `None`.
pub fn first_version(text: &str) -> (r: Option<String>)
    ensures
        match r {
            Some(sub) => first_version_str(text@) matches Some(t) && t == sub@,
            None => first_version_str(text@) is None,
        },
{
    let n = text.unicode_len();
    let mut i: usize = 0;
    while i < n
        invariant
            0 <= i <= n,
            n == text@.len(),
            forall|j: int| 0 <= j < i ==> !version_match_at(text@, j),
        decreases n - i,
    {
        let r1 = digit_run(text, i);
        if r1 > 0 {
            let a = i + r1;
            if a < n && text.get_char(a) == '.' {
                let r2 = digit_run(text, a + 1);
                if r2 > 0 {
                    let b = a + 1 + r2;
                    if b < n && text.get_char(b) == '.' {
                        let r3 = digit_run(text, b + 1);
                        if r3 > 0 {
                            let end = b + 1 + r3;
                            proof {
                                assert(version_match_at(text@, i as int));
                                assert(version_match_end(text@, i as int) == end as int);
                                lemma_find_version_skip(text@, i as int);
                            }
                            return Some(text.substring_char(i, end).to_owned());
                        }
                    }
                }
            }
        }
        proof {
            assert(!version_match_at(text@, i as int));
        }
        i = i + 1;
    }
    proof {
        lemma_find_version_skip(text@, n as int);
    }
    None
}

impl Version {
    /// The version named by the leftmost version-shaped substring of a
    /// program's output; `None` when no such substring exists or one of
    /// its fields does not fit.
    pub fn find_in(text: &str) -> (r: Option<Version>)
        ensures
            match r {
                Some(v) => first_version_str(text@) matches Some(t) && version_of_string(t)
                    matches Some(tr) && v.major == tr.0 && v.minor == tr.1 && v.patch == tr.2,
                None => first_version_str(text@) is None || (first_version_str(text@) matches Some(
                    t,
                ) && version_of_string(t) is None),
            },
    {
        match first_version(text) {
            Some(sub) => Version::parse(sub.as_str()),
            None => None,
        }
    }
}

} // verus!
