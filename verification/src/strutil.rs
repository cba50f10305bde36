use vstd::prelude::*;

use vstd::string::*;

verus! {

/// Linear whitespace inside a header value.
pub open spec fn is_space(c: char) -> bool {
    c == ' ' || c == '\t'
}

/// Number of spaces at the head of `s`.
pub open spec fn leading_spaces(s: Seq<char>) -> int
    decreases s.len(),
{
    if s.len() == 0 {
        0
    } else if !is_space(s[0]) {
        0
    } else {
        1 + leading_spaces(s.subrange(1, s.len() as int))
    }
}

/// Number of spaces at the tail of `s`.
pub open spec fn trailing_spaces(s: Seq<char>) -> int
    decreases s.len(),
{
    if s.len() == 0 {
        0
    } else if !is_space(s[s.len() - 1]) {
        0
    } else {
        1 + trailing_spaces(s.subrange(0, s.len() - 1))
    }
}

/// `s` without its leading and trailing spaces.
pub open spec fn trim_spec(s: Seq<char>) -> Seq<char> {
    if leading_spaces(s) == s.len() {
        Seq::empty()
    } else {
        s.subrange(leading_spaces(s), s.len() - trailing_spaces(s))
    }
}

/// `s` without one pair of surrounding double quotes, when both are present.
pub open spec fn strip_quotes_spec(s: Seq<char>) -> Seq<char> {
    if s.len() >= 2 && s[0] == '"' && s[s.len() - 1] == '"' {
        s.subrange(1, s.len() - 1)
    } else {
        s
    }
}

/// The count of leading spaces is the least index holding a non-space, or the
/// whole length.
pub proof fn lemma_leading_spaces_is(s: Seq<char>, a: int)
    requires
        0 <= a <= s.len(),
        forall|t: int| 0 <= t < a ==> is_space(s[t]),
        a < s.len() ==> !is_space(s[a]),
    ensures
        leading_spaces(s) == a,
    decreases s.len(),
{
    if s.len() != 0 {
        if a == 0 {
        } else {
            assert(is_space(s[0]));
            let s1 = s.subrange(1, s.len() as int);
            assert forall|t: int| 0 <= t < a - 1 implies is_space(s1[t]) by {
                assert(s1[t] == s[t + 1]);
            }
            lemma_leading_spaces_is(s1, a - 1);
        }
    }
}

/// The count of trailing spaces is likewise determined by the last non-space.
pub proof fn lemma_trailing_spaces_is(s: Seq<char>, b: int)
    requires
        0 <= b <= s.len(),
        forall|t: int| s.len() - b <= t < s.len() ==> is_space(s[t]),
        b < s.len() ==> !is_space(s[s.len() - b - 1]),
    ensures
        trailing_spaces(s) == b,
    decreases s.len(),
{
    if s.len() != 0 {
        if b == 0 {
        } else {
            assert(is_space(s[s.len() - 1]));
            let s1 = s.subrange(0, s.len() - 1);
            assert forall|t: int| s1.len() - (b - 1) <= t < s1.len() implies is_space(s1[t]) by {
                assert(s1[t] == s[t]);
            }
            lemma_trailing_spaces_is(s1, b - 1);
        }
    }
}

/// Character-for-character equality of two strings.
pub fn str_eq(a: &str, b: &str) -> (r: bool)
    ensures
        r == (a@ == b@),
{
    let la = a.unicode_len();
    let lb = b.unicode_len();
    if la != lb {
        return false;
    }
    let mut i: usize = 0;
    while i < la
        invariant
            i <= la,
            la == a@.len(),
            la == b@.len(),
            forall|t: int| 0 <= t < i ==> a@[t] == b@[t],
        decreases la - i,
    {
        if a.get_char(i) != b.get_char(i) {
            return false;
        }
        i = i + 1;
    }
    proof {
        assert(a@ =~= b@);
    }
    true
}

/// Whether `p` is a prefix of `s`.
pub open spec fn is_prefix(s: Seq<char>, p: Seq<char>) -> bool {
    s.len() >= p.len() && s.subrange(0, p.len() as int) == p
}

/// Whether `s` starts with `prefix`, character for character.
pub fn str_starts_with(s: &str, prefix: &str) -> (r: bool)
    ensures
        r == is_prefix(s@, prefix@),
{
    let ls = s.unicode_len();
    let lp = prefix.unicode_len();
    if ls < lp {
        return false;
    }
    let mut i: usize = 0;
    while i < lp
        invariant
            i <= lp,
            lp <= ls,
            ls == s@.len(),
            lp == prefix@.len(),
            forall|t: int| 0 <= t < i ==> s@[t] == prefix@[t],
        decreases lp - i,
    {
        if s.get_char(i) != prefix.get_char(i) {
            proof {
                assert(s@.subrange(0, prefix@.len() as int)[i as int] != prefix@[i as int]);
            }
            return false;
        }
        i = i + 1;
    }
    proof {
        assert(s@.subrange(0, prefix@.len() as int) =~= prefix@);
    }
    true
}

/// First index at or after `from` and below `to` holding a non-space, or `to`.
fn scan_non_space(s: &str, from: usize, to: usize) -> (r: usize)
    requires
        from <= to <= s@.len(),
    ensures
        from <= r <= to,
        forall|t: int| from <= t < r ==> is_space(s@[t]),
        r < to ==> !is_space(s@[r as int]),
{
    let mut j: usize = from;
    while j < to
        invariant
            from <= j <= to <= s@.len(),
            forall|t: int| from <= t < j ==> is_space(s@[t]),
        decreases to - j,
    {
        let c = s.get_char(j);
        if !(c == ' ' || c == '\t') {
            return j;
        }
        j = j + 1;
    }
    j
}

/// Bounds of `[from, to)` with surrounding spaces removed; the trimmed range
/// carries exactly the model-level trim of the range's characters.
#[verifier::loop_isolation(false)]
pub fn trim_range(s: &str, from: usize, to: usize) -> (r: (usize, usize))
    requires
        from <= to <= s@.len(),
    ensures
        from <= r.0 <= r.1 <= to,
        trim_spec(s@.subrange(from as int, to as int)) == s@.subrange(r.0 as int, r.1 as int),
{
    let ghost seg = s@.subrange(from as int, to as int);
    let a = scan_non_space(s, from, to);
    proof {
        assert forall|t: int| 0 <= t < a - from implies is_space(seg[t]) by {
            assert(seg[t] == s@[from + t]);
        }
        if a < to {
            assert(seg[a - from] == s@[a as int]);
        }
        lemma_leading_spaces_is(seg, a - from);
    }
    if a == to {
        proof {
            assert(trim_spec(seg) =~= s@.subrange(to as int, to as int));
        }
        return (to, to);
    }
    // Scan back from `to` for the last non-space; one exists at or after `a`.
    let mut b: usize = to;
    while b > a
        invariant
            a <= b <= to,
            forall|t: int| b <= t < to ==> is_space(s@[t]),
        decreases b,
    {
        let c = s.get_char(b - 1);
        if !(c == ' ' || c == '\t') {
            proof {
                assert forall|t: int| seg.len() - (to - b) <= t < seg.len() implies is_space(
                    seg[t],
                ) by {
                    assert(seg[t] == s@[from + t]);
                }
                assert(seg[seg.len() - (to - b) - 1] == s@[b - 1]);
                lemma_trailing_spaces_is(seg, to - b);
                assert(trim_spec(seg) =~= s@.subrange(a as int, b as int));
            }
            return (a, b);
        }
        b = b - 1;
    }
    proof {
        assert(!is_space(seg[a - from]));
        assert(is_space(s@[a as int]));
        assert(false);
    }
    (a, a)
}

} // verus!
