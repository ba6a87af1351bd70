//! Ground work for the CSV codec and the grading trail: a lexicographic
//! order on strings, decimal rendering of integers, joining and escaping.

use vstd::prelude::*;

verus! {

/// Lexicographic "less or equal" on character sequences, by code point.
pub open spec fn lex_le(a: Seq<char>, b: Seq<char>) -> bool
    decreases a.len(),
{
    if a.len() == 0 {
        true
    } else if b.len() == 0 {
        false
    } else if (a[0] as u32) < (b[0] as u32) {
        true
    } else if (b[0] as u32) < (a[0] as u32) {
        false
    } else {
        lex_le(a.drop_first(), b.drop_first())
    }
}

pub proof fn lemma_lex_le_refl(a: Seq<char>)
    ensures
        lex_le(a, a),
    decreases a.len(),
{
    if a.len() > 0 {
        lemma_lex_le_refl(a.drop_first());
    }
}

/// Characters with the same code point are the same character.
proof fn lemma_char_code_eq(a: char, b: char)
    requires
        !((a as u32) < (b as u32)),
        !((b as u32) < (a as u32)),
    ensures
        a == b,
{
}

pub proof fn lemma_lex_le_antisym(a: Seq<char>, b: Seq<char>)
    requires
        lex_le(a, b),
        lex_le(b, a),
    ensures
        a == b,
    decreases a.len(),
{
    if a.len() == 0 {
        assert(b.len() == 0);
        assert(a =~= b);
    } else {
        assert(b.len() > 0);
        if (a[0] as u32) < (b[0] as u32) {
            assert(!lex_le(b, a));
            assert(false);
        } else if (b[0] as u32) < (a[0] as u32) {
            assert(!lex_le(a, b));
            assert(false);
        } else {
            lemma_char_code_eq(a[0], b[0]);
            lemma_lex_le_antisym(a.drop_first(), b.drop_first());
            assert forall|i: int| 0 <= i < a.len() implies a[i] == b[i] by {
                if i > 0 {
                    assert(a[i] == a.drop_first()[i - 1]);
                    assert(b[i] == b.drop_first()[i - 1]);
                }
            }
            assert(a =~= b);
        }
    }
}

pub proof fn lemma_lex_le_trans(a: Seq<char>, b: Seq<char>, c: Seq<char>)
    requires
        lex_le(a, b),
        lex_le(b, c),
    ensures
        lex_le(a, c),
    decreases a.len(),
{
    if a.len() > 0 {
        assert(b.len() > 0 && c.len() > 0);
        if (a[0] as u32) == (b[0] as u32) && (b[0] as u32) == (c[0] as u32) {
            lemma_lex_le_trans(a.drop_first(), b.drop_first(), c.drop_first());
        }
    }
}

pub proof fn lemma_lex_le_connected(a: Seq<char>, b: Seq<char>)
    ensures
        lex_le(a, b) || lex_le(b, a),
    decreases a.len(),
{
    if a.len() > 0 && b.len() > 0 {
        lemma_lex_le_connected(a.drop_first(), b.drop_first());
    }
}

/// On sequences sharing a prefix, the order is decided past the prefix.
pub proof fn lemma_lex_le_common_prefix(a: Seq<char>, b: Seq<char>, i: int)
    requires
        0 <= i <= a.len(),
        i <= b.len(),
        forall|j: int| 0 <= j < i ==> a[j] == b[j],
    ensures
        lex_le(a, b) == lex_le(a.skip(i), b.skip(i)),
    decreases i,
{
    if i > 0 {
        assert(a.len() > 0 && b.len() > 0);
        assert(a[0] == b[0]);
        lemma_lex_le_common_prefix(a.drop_first(), b.drop_first(), i - 1);
        assert(a.drop_first().skip(i - 1) =~= a.skip(i));
        assert(b.drop_first().skip(i - 1) =~= b.skip(i));
    } else {
        assert(a.skip(0) =~= a);
        assert(b.skip(0) =~= b);
    }
}

/// Decides `lex_le` on two strings.
pub fn str_lex_le(a: &str, b: &str) -> (r: bool)
    ensures
        r == lex_le(a@, b@),
{
    let a_len = a.unicode_len();
    let b_len = b.unicode_len();
    let n = if a_len < b_len {
        a_len
    } else {
        b_len
    };
    let mut i: usize = 0;
    while i < n
        invariant
            0 <= i <= n,
            n == if a@.len() < b@.len() {
                a@.len()
            } else {
                b@.len()
            },
            n <= a@.len() && n <= b@.len(),
            forall|j: int| 0 <= j < i ==> a@[j] == b@[j],
        decreases n - i,
    {
        let ca = a.get_char(i);
        let cb = b.get_char(i);
        if (ca as u32) < (cb as u32) {
            proof {
                lemma_lex_le_common_prefix(a@, b@, i as int);
            }
            return true;
        }
        if (cb as u32) < (ca as u32) {
            proof {
                lemma_lex_le_common_prefix(a@, b@, i as int);
            }
            return false;
        }
        proof {
            assert(a@[i as int] == b@[i as int]);
        }
        i = i + 1;
    }
    proof {
        lemma_lex_le_common_prefix(a@, b@, n as int);
    }
    a_len <= b_len
}

/// The character for one decimal digit.
pub open spec fn digit_char(d: int) -> char {
    (48 + d) as char
}

/// Decimal rendering of a non-negative integer.
pub open spec fn dec_str_nat(n: int) -> Seq<char>
    recommends
        n >= 0,
    decreases n,
{
    if n < 10 {
        seq![digit_char(n)]
    } else {
        dec_str_nat(n / 10).push(digit_char(n % 10))
    }
}

/// Decimal rendering of an integer, with a leading minus sign when negative.
pub open spec fn dec_str(n: int) -> Seq<char> {
    if n >= 0 {
        dec_str_nat(n)
    } else {
        seq!['-'] + dec_str_nat(-n)
    }
}

/// One decimal digit as a string slice.
fn digit_str(d: u8) -> (s: &'static str)
    requires
        d < 10,
    ensures
        s@ =~= seq![digit_char(d as int)],
{
    proof {
        reveal_strlit("0");
        reveal_strlit("1");
        reveal_strlit("2");
        reveal_strlit("3");
        reveal_strlit("4");
        reveal_strlit("5");
        reveal_strlit("6");
        reveal_strlit("7");
        reveal_strlit("8");
        reveal_strlit("9");
    }
    match d {
        0 => "0",
        1 => "1",
        2 => "2",
        3 => "3",
        4 => "4",
        5 => "5",
        6 => "6",
        7 => "7",
        8 => "8",
        _ => "9",
    }
}

pub fn u64_to_string(n: u64) -> (s: String)
    ensures
        s@ == dec_str_nat(n as int),
    decreases n,
{
    if n < 10 {
        digit_str(n as u8).to_owned()
    } else {
        let mut s = u64_to_string(n / 10);
        s.append(digit_str((n % 10) as u8));
        proof {
            assert(s@ =~= dec_str_nat(n as int));
        }
        s
    }
}

pub fn i64_to_string(n: i64) -> (s: String)
    ensures
        s@ == dec_str(n as int),
{
    if n >= 0 {
        u64_to_string(n as u64)
    } else {
        let magnitude: u64 = (-(n as i128)) as u64;
        let mut s = "-".to_owned();
        s.append(u64_to_string(magnitude).as_str());
        proof {
            reveal_strlit("-");
            assert(s@ =~= dec_str(n as int));
        }
        s
    }
}

/// The views of a sequence of owned strings.
pub open spec fn str_views(v: Seq<String>) -> Seq<Seq<char>> {
    v.map_values(|s: String| s@)
}

/// `parts` joined with the separator `sep` between them.
pub open spec fn join_with(parts: Seq<Seq<char>>, sep: Seq<char>) -> Seq<char>
    decreases parts.len(),
{
    if parts.len() == 0 {
        Seq::empty()
    } else if parts.len() == 1 {
        parts[0]
    } else {
        join_with(parts.drop_last(), sep) + sep + parts.last()
    }
}

/// Joins string views held in a `Vec` with a separator.
pub fn join_strings(parts: &Vec<String>, sep: &str) -> (s: String)
    ensures
        s@ == join_with(str_views(parts@), sep@),
{
    let ghost viewed = str_views(parts@);
    let mut s = String::new();
    let mut i: usize = 0;
    while i < parts.len()
        invariant
            0 <= i <= parts.len(),
            viewed == str_views(parts@),
            s@ == join_with(viewed.take(i as int), sep@),
        decreases parts.len() - i,
    {
        if i > 0 {
            s.append(sep);
        }
        s.append(parts[i].as_str());
        proof {
            assert(viewed.take(i + 1 as int).drop_last() =~= viewed.take(i as int));
            assert(viewed.take(i + 1 as int).last() == viewed[i as int]);
        }
        i = i + 1;
    }
    proof {
        assert(viewed.take(parts@.len() as int) =~= viewed);
    }
    s
}

/// `v` with every comma turned into a semicolon.
pub open spec fn escape_commas(v: Seq<char>) -> Seq<char> {
    v.map_values(|c: char| if c == ',' { ';' } else { c })
}

proof fn lemma_escape_commas_concat(a: Seq<char>, b: Seq<char>)
    ensures
        escape_commas(a + b) =~= escape_commas(a) + escape_commas(b),
{
}

/// Replaces each comma in `v` with a semicolon.
pub fn replace_commas(v: &str) -> (r: String)
    ensures
        r@ == escape_commas(v@),
{
    let n = v.unicode_len();
    let mut out = String::new();
    let mut start: usize = 0;
    let mut i: usize = 0;
    while i < n
        invariant
            0 <= start <= i <= n,
            n == v@.len(),
            out@ == escape_commas(v@.take(start as int)),
            forall|j: int| start <= j < i ==> v@[j] != ',',
        decreases n - i,
    {
        let c = v.get_char(i);
        if c == ',' {
            out.append(v.substring_char(start, i));
            out.append(";");
            proof {
                reveal_strlit(";");
                let run = v@.subrange(start as int, i as int);
                assert(escape_commas(run) =~= run);
                lemma_escape_commas_concat(v@.take(start as int), run);
                assert(v@.take(start as int) + run =~= v@.take(i as int));
                lemma_escape_commas_concat(v@.take(i as int), seq![',']);
                assert(v@.take(i as int) + seq![','] =~= v@.take(i + 1 as int));
                assert(escape_commas(seq![',']) =~= seq![';']);
                assert(out@ =~= escape_commas(v@.take(i + 1 as int)));
            }
            start = i + 1;
        }
        i = i + 1;
    }
    out.append(v.substring_char(start, n));
    proof {
        let run = v@.subrange(start as int, n as int);
        assert(escape_commas(run) =~= run);
        lemma_escape_commas_concat(v@.take(start as int), run);
        assert(v@.take(start as int) + run =~= v@);
    }
    out
}

} // verus!
verus! {

/// ASCII whitespace, the separators the identifier derivation collapses.
pub open spec fn is_space(c: char) -> bool {
    c == ' ' || c == '\t' || c == '\n' || c == '\r'
}

fn is_space_char(c: char) -> (r: bool)
    ensures
        r == is_space(c),
{
    c == ' ' || c == '\t' || c == '\n' || c == '\r'
}

/// `s` without leading whitespace.
pub open spec fn trim_front(s: Seq<char>) -> Seq<char>
    decreases s.len(),
{
    if s.len() > 0 && is_space(s[0]) {
        trim_front(s.drop_first())
    } else {
        s
    }
}

/// `s` without trailing whitespace.
pub open spec fn trim_back(s: Seq<char>) -> Seq<char>
    decreases s.len(),
{
    if s.len() > 0 && is_space(s.last()) {
        trim_back(s.drop_last())
    } else {
        s
    }
}

/// `s` without leading and trailing whitespace.
pub open spec fn trim_spec(s: Seq<char>) -> Seq<char> {
    trim_back(trim_front(s))
}

proof fn lemma_trim_front_skip(s: Seq<char>, k: int)
    requires
        0 <= k <= s.len(),
        forall|j: int| 0 <= j < k ==> is_space(#[trigger] s[j]),
        k < s.len() ==> !is_space(s[k]),
    ensures
        trim_front(s) == s.skip(k),
    decreases k,
{
    if k == 0 {
        assert(s.skip(0) =~= s);
    } else {
        lemma_trim_front_skip(s.drop_first(), k - 1);
        assert(s.drop_first().skip(k - 1) =~= s.skip(k));
    }
}

proof fn lemma_trim_back_take(s: Seq<char>, k: int)
    requires
        0 <= k <= s.len(),
        forall|j: int| k <= j < s.len() ==> is_space(#[trigger] s[j]),
        k > 0 ==> !is_space(s[k - 1]),
    ensures
        trim_back(s) == s.take(k),
    decreases s.len() - k,
{
    if k == s.len() {
        assert(s.take(k) =~= s);
    } else {
        lemma_trim_back_take(s.drop_last(), k);
        assert(s.drop_last().take(k) =~= s.take(k));
    }
}

/// Copies `s` without its leading and trailing whitespace.
pub fn trim_copy(s: &str) -> (r: String)
    ensures
        r@ == trim_spec(s@),
{
    let n = s.unicode_len();
    let mut lo: usize = 0;
    while lo < n && is_space_char(s.get_char(lo))
        invariant
            0 <= lo <= n,
            n == s@.len(),
            forall|j: int| 0 <= j < lo ==> is_space(#[trigger] s@[j]),
        decreases n - lo,
    {
        lo = lo + 1;
    }
    proof {
        lemma_trim_front_skip(s@, lo as int);
    }
    let mut hi: usize = n;
    while hi > lo && is_space_char(s.get_char(hi - 1))
        invariant
            lo <= hi <= n,
            n == s@.len(),
            forall|j: int| hi <= j < n ==> is_space(#[trigger] s@[j]),
        decreases hi,
    {
        hi = hi - 1;
    }
    let r = s.substring_char(lo, hi).to_owned();
    proof {
        let f = s@.skip(lo as int);
        assert forall|j: int| hi - lo <= j < f.len() implies is_space(#[trigger] f[j]) by {
            assert(f[j] == s@[j + lo]);
        }
        if hi > lo {
            assert(f[hi - lo - 1] == s@[hi - 1 as int]);
        }
        lemma_trim_back_take(f, hi - lo);
        assert(r@ =~= f.take(hi - lo));
    }
    r
}

/// Whitespace runs collapsed to one underscore each; other characters kept.
pub open spec fn underscored(s: Seq<char>) -> Seq<char>
    decreases s.len(),
{
    if s.len() == 0 {
        Seq::empty()
    } else {
        underscored(s.drop_last()) + (if is_space(s.last()) {
            if s.len() >= 2 && is_space(s[s.len() - 2]) {
                Seq::<char>::empty()
            } else {
                seq!['_']
            }
        } else {
            seq![s.last()]
        })
    }
}

/// Copies `s`, collapsing each whitespace run into one underscore.
pub fn collapse_spaces(s: &str) -> (r: String)
    ensures
        r@ == underscored(s@),
{
    let n = s.unicode_len();
    let mut out = String::new();
    let mut i: usize = 0;
    while i < n
        invariant
            0 <= i <= n,
            n == s@.len(),
            out@ == underscored(s@.take(i as int)),
        decreases n - i,
    {
        let c = s.get_char(i);
        if is_space_char(c) {
            if i == 0 || !is_space_char(s.get_char(i - 1)) {
                out.append("_");
            }
        } else {
            out.append(s.substring_char(i, i + 1));
        }
        proof {
            reveal_strlit("_");
            let t = s@.take(i + 1 as int);
            assert(t.drop_last() =~= s@.take(i as int));
            assert(t.last() == s@[i as int]);
            if i > 0 {
                assert(t[t.len() - 2] == s@[i - 1 as int]);
            }
            assert("_"@ =~= seq!['_']);
            assert(s@.subrange(i as int, i + 1 as int) =~= seq![s@[i as int]]);
            assert(out@ =~= underscored(t));
        }
        i = i + 1;
    }
    proof {
        assert(s@.take(n as int) =~= s@);
    }
    out
}

/// What `str::to_lowercase` returns: a function of the characters alone.
pub uninterp spec fn lower_of(s: Seq<char>) -> Seq<char>;

/// Relies on str::to_lowercase: the result depends on the characters alone.
#[verifier::external_body]
pub fn lowercase(s: &str) -> (r: String)
    ensures
        r@ == lower_of(s@),
{
    s.to_lowercase()
}

} // verus!
