//! Character-level string operations of the link pipeline: trimming
//! surrounding whitespace, splitting at the first or after the last
//! occurrence of a character, and prefix tests.

use vstd::prelude::*;
use vstd::string::*;

verus! {

/// A character with the Unicode `White_Space` property, the set that
/// trimming removes from either end of a candidate link.
pub open spec fn is_space(c: char) -> bool {
    let u = c as u32;
    u == 0x09 || u == 0x0A || u == 0x0B || u == 0x0C || u == 0x0D || u == 0x20 || u == 0x85
        || u == 0xA0 || u == 0x1680 || (0x2000 <= u && u <= 0x200A) || u == 0x2028 || u == 0x2029
        || u == 0x202F || u == 0x205F || u == 0x3000
}

pub fn is_space_char(c: char) -> (r: bool)
    ensures
        r == is_space(c),
{
    let u = c as u32;
    u == 0x09 || u == 0x0A || u == 0x0B || u == 0x0C || u == 0x0D || u == 0x20 || u == 0x85
        || u == 0xA0 || u == 0x1680 || (0x2000 <= u && u <= 0x200A) || u == 0x2028 || u == 0x2029
        || u == 0x202F || u == 0x205F || u == 0x3000
}

/// Index of the first occurrence of `c` in `s`, or `s.len()` if absent.
pub open spec fn first_hit(s: Seq<char>, c: char) -> int
    decreases s.len(),
{
    if s.len() == 0 {
        0
    } else if s[0] == c {
        0
    } else {
        1 + first_hit(s.drop_first(), c)
    }
}

/// What comes before the first occurrence of `c`; all of `s` if `c` is absent.
pub open spec fn prefix_before(s: Seq<char>, c: char) -> Seq<char> {
    s.take(first_hit(s, c))
}

pub proof fn lemma_first_hit(s: Seq<char>, c: char)
    ensures
        0 <= first_hit(s, c) <= s.len(),
        first_hit(s, c) < s.len() ==> s[first_hit(s, c)] == c,
        forall|j: int| 0 <= j < first_hit(s, c) ==> s[j] != c,
    decreases s.len(),
{
    if s.len() == 0 {
    } else if s[0] == c {
    } else {
        lemma_first_hit(s.drop_first(), c);
        assert forall|j: int| 0 <= j < first_hit(s, c) implies s[j] != c by {
            if j > 0 {
                assert(s.drop_first()[j - 1] == s[j]);
            }
        }
    }
}

/// Index of the last occurrence of `c` in `s`, or `-1` if absent.
pub open spec fn last_hit(s: Seq<char>, c: char) -> int
    decreases s.len(),
{
    if s.len() == 0 {
        -1
    } else if s[s.len() - 1] == c {
        s.len() - 1
    } else {
        last_hit(s.drop_last(), c)
    }
}

/// What comes after the last occurrence of `c`; all of `s` if `c` is absent.
pub open spec fn suffix_after_last(s: Seq<char>, c: char) -> Seq<char> {
    s.subrange(last_hit(s, c) + 1, s.len() as int)
}

pub proof fn lemma_last_hit(s: Seq<char>, c: char)
    ensures
        -1 <= last_hit(s, c) < s.len(),
        last_hit(s, c) >= 0 ==> s[last_hit(s, c)] == c,
        forall|j: int| last_hit(s, c) < j < s.len() ==> s[j] != c,
    decreases s.len(),
{
    if s.len() == 0 {
    } else if s[s.len() - 1] == c {
    } else {
        lemma_last_hit(s.drop_last(), c);
        assert forall|j: int| last_hit(s, c) < j < s.len() implies s[j] != c by {
            if j < s.len() - 1 {
                assert(s.drop_last()[j] == s[j]);
            }
        }
    }
}

/// The part of `s` before the first occurrence of `c`.
pub fn split_before<'a>(s: &'a str, c: char) -> (r: &'a str)
    ensures
        r@ == prefix_before(s@, c),
{
    let n = s.unicode_len();
    let mut i: usize = 0;
    while i < n
        invariant
            i <= n,
            n == s@.len(),
            forall|j: int| 0 <= j < i ==> s@[j] != c,
        ensures
            i <= n,
            n == s@.len(),
            forall|j: int| 0 <= j < i ==> s@[j] != c,
            i < n ==> s@[i as int] == c,
        decreases n - i,
    {
        if s.get_char(i) == c {
            break ;
        }
        i += 1;
    }
    proof {
        lemma_first_hit(s@, c);
        let f = first_hit(s@, c);
        if i < f {
            assert(s@[i as int] != c);
            assert(false);
        }
        if f < i {
            assert(s@[f] == c);
            assert(false);
        }
        assert(prefix_before(s@, c) == s@.subrange(0, i as int));
    }
    s.substring_char(0, i)
}

/// Index of the last occurrence of `c` in `s`, if any.
pub fn find_last(s: &str, c: char) -> (r: Option<usize>)
    ensures
        r matches Some(k) ==> k == last_hit(s@, c),
        r is None ==> last_hit(s@, c) == -1,
{
    let n = s.unicode_len();
    let mut i: usize = n;
    while i > 0
        invariant
            i <= n,
            n == s@.len(),
            forall|j: int| i <= j < n ==> s@[j] != c,
        ensures
            i <= n,
            n == s@.len(),
            forall|j: int| i <= j < n ==> s@[j] != c,
            i > 0 ==> s@[i - 1] == c,
        decreases i,
    {
        if s.get_char(i - 1) == c {
            break ;
        }
        i -= 1;
    }
    proof {
        lemma_last_hit(s@, c);
        let l = last_hit(s@, c);
        if i - 1 < l {
            assert(s@[l] != c);
            assert(false);
        }
        if l < i - 1 {
            assert(s@[i - 1] != c);
            assert(false);
        }
    }
    if i > 0 {
        Some(i - 1)
    } else {
        None
    }
}

/// The part of `s` after the last occurrence of `c`; all of `s` if absent.
pub fn split_after_last<'a>(s: &'a str, c: char) -> (r: &'a str)
    ensures
        r@ == suffix_after_last(s@, c),
{
    proof {
        lemma_last_hit(s@, c);
    }
    let n = s.unicode_len();
    match find_last(s, c) {
        Some(k) => s.substring_char(k + 1, n),
        None => {
            proof {
                assert(suffix_after_last(s@, c) == s@.subrange(0, n as int));
            }
            s.substring_char(0, n)
        },
    }
}

/// `s` with leading whitespace removed.
pub open spec fn trim_start(s: Seq<char>) -> Seq<char>
    decreases s.len(),
{
    if s.len() > 0 && is_space(s[0]) {
        trim_start(s.drop_first())
    } else {
        s
    }
}

/// `s` with trailing whitespace removed.
pub open spec fn trim_end(s: Seq<char>) -> Seq<char>
    decreases s.len(),
{
    if s.len() > 0 && is_space(s[s.len() - 1]) {
        trim_end(s.drop_last())
    } else {
        s
    }
}

/// `s` with surrounding whitespace removed.
pub open spec fn trim_of(s: Seq<char>) -> Seq<char> {
    trim_end(trim_start(s))
}

/// `s` with surrounding whitespace removed.
pub fn trim_str<'a>(s: &'a str) -> (r: &'a str)
    ensures
        r@ == trim_of(s@),
{
    let n = s.unicode_len();
    proof {
        assert(s@ =~= s@.subrange(0, n as int));
    }
    let mut a: usize = 0;
    while a < n && is_space_char(s.get_char(a))
        invariant
            a <= n,
            n == s@.len(),
            trim_start(s@) == trim_start(s@.subrange(a as int, n as int)),
        decreases n - a,
    {
        proof {
            let t = s@.subrange(a as int, n as int);
            assert(t.drop_first() =~= s@.subrange(a + 1, n as int));
        }
        a += 1;
    }
    proof {
        assert(trim_start(s@) == s@.subrange(a as int, n as int));
    }
    let mut b: usize = n;
    while b > a && is_space_char(s.get_char(b - 1))
        invariant
            a <= b <= n,
            n == s@.len(),
            trim_start(s@) == s@.subrange(a as int, n as int),
            trim_end(s@.subrange(a as int, n as int)) == trim_end(s@.subrange(a as int, b as int)),
        decreases b,
    {
        proof {
            let t = s@.subrange(a as int, b as int);
            assert(t.drop_last() =~= s@.subrange(a as int, b - 1));
        }
        b -= 1;
    }
    proof {
        assert(trim_end(s@.subrange(a as int, b as int)) == s@.subrange(a as int, b as int));
    }
    s.substring_char(a, b)
}

/// `p` is a prefix of `s`.
pub open spec fn has_prefix(s: Seq<char>, p: Seq<char>) -> bool {
    p.len() <= s.len() && s.take(p.len() as int) == p
}

/// Whether `s` starts with `p`.
pub fn str_has_prefix(s: &str, p: &str) -> (r: bool)
    ensures
        r == has_prefix(s@, p@),
{
    let sn = s.unicode_len();
    let pn = p.unicode_len();
    if pn > sn {
        return false;
    }
    let mut i: usize = 0;
    while i < pn
        invariant
            i <= pn <= sn,
            sn == s@.len(),
            pn == p@.len(),
            forall|j: int| 0 <= j < i ==> s@[j] == p@[j],
        decreases pn - i,
    {
        if s.get_char(i) != p.get_char(i) {
            proof {
                assert(s@.take(pn as int)[i as int] != p@[i as int]);
            }
            return false;
        }
        i += 1;
    }
    proof {
        assert(s@.take(pn as int) =~= p@);
    }
    true
}

/// Whether `a` and `b` hold the same characters.
pub fn str_eq(a: &str, b: &str) -> (r: bool)
    ensures
        r == (a@ == b@),
{
    let an = a.unicode_len();
    let bn = b.unicode_len();
    if an != bn {
        return false;
    }
    let mut i: usize = 0;
    while i < an
        invariant
            i <= an,
            an == a@.len(),
            an == b@.len(),
            forall|j: int| 0 <= j < i ==> a@[j] == b@[j],
        decreases an - i,
    {
        if a.get_char(i) != b.get_char(i) {
            return false;
        }
        i += 1;
    }
    proof {
        assert(a@ =~= b@);
    }
    true
}

} // verus!
