//! Character-level utilities shared by the line classifiers: the character
//! classes of the diagram grammar (word characters, whitespace), ASCII case
//! mapping, and searching for characters and substrings.

use vstd::prelude::*;

verus! {

/// A word character of the grammar: a lower-case ASCII letter, a digit, or
/// an underscore.  The input is lower-cased before any line is classified,
/// so upper-case letters never reach the classifiers.
pub open spec fn is_word_char(c: char) -> bool {
    (97 <= c as u32 && c as u32 <= 122) || (48 <= c as u32 && c as u32 <= 57) || c == '_'
}

/// An ASCII whitespace character: space, tab, line feed, vertical tab,
/// form feed, or carriage return.
pub open spec fn is_space_char(c: char) -> bool {
    c == ' ' || (9 <= c as u32 && c as u32 <= 13)
}

/// ASCII lower-casing of one character; everything else is unchanged.
pub open spec fn lower_char(c: char) -> char {
    if 65 <= c as u32 && c as u32 <= 90 {
        (((c as u32) + 32) as u8) as char
    } else {
        c
    }
}

/// ASCII upper-casing of one character; everything else is unchanged.
pub open spec fn upper_char(c: char) -> char {
    if 97 <= c as u32 && c as u32 <= 122 {
        (((c as u32) - 32) as u8) as char
    } else {
        c
    }
}

/// ASCII lower-casing of a whole character sequence.
pub open spec fn lower_seq(s: Seq<char>) -> Seq<char> {
    Seq::new(s.len(), |i: int| lower_char(s[i]))
}

/// ASCII upper-casing of a whole character sequence.
pub open spec fn upper_seq(s: Seq<char>) -> Seq<char> {
    Seq::new(s.len(), |i: int| upper_char(s[i]))
}

pub fn to_lower_char(c: char) -> (r: char)
    ensures
        r == lower_char(c),
{
    let u = c as u32;
    if 65 <= u && u <= 90 {
        ((u + 32) as u8) as char
    } else {
        c
    }
}

pub fn to_upper_char(c: char) -> (r: char)
    ensures
        r == upper_char(c),
{
    let u = c as u32;
    if 97 <= u && u <= 122 {
        ((u - 32) as u8) as char
    } else {
        c
    }
}

pub fn is_word(c: char) -> (r: bool)
    ensures
        r == is_word_char(c),
{
    let u = c as u32;
    (97 <= u && u <= 122) || (48 <= u && u <= 57) || c == '_'
}

pub fn is_space(c: char) -> (r: bool)
    ensures
        r == is_space_char(c),
{
    let u = c as u32;
    c == ' ' || (9 <= u && u <= 13)
}

/// The characters of a string slice, in order.
pub fn str_chars(s: &str) -> (r: Vec<char>)
    ensures
        r@ == s@,
{
    let n = s.unicode_len();
    let mut r: Vec<char> = Vec::new();
    let mut i: usize = 0;
    while i < n
        invariant
            n == s@.len(),
            i <= n,
            r@ == s@.subrange(0, i as int),
        decreases n - i,
    {
        r.push(s.get_char(i));
        i += 1;
        proof {
            assert(r@ =~= s@.subrange(0, i as int));
        }
    }
    proof {
        assert(r@ =~= s@);
    }
    r
}

/// The characters of a string slice, ASCII lower-cased.
pub fn lower_chars(s: &str) -> (r: Vec<char>)
    ensures
        r@ == lower_seq(s@),
{
    let n = s.unicode_len();
    let mut r: Vec<char> = Vec::new();
    let mut i: usize = 0;
    while i < n
        invariant
            n == s@.len(),
            i <= n,
            r@.len() == i,
            forall|j: int| 0 <= j < i ==> r@[j] == lower_char(s@[j]),
        decreases n - i,
    {
        r.push(to_lower_char(s.get_char(i)));
        i += 1;
    }
    proof {
        assert(r@ =~= lower_seq(s@));
    }
    r
}

/// Whether `s` holds the character `c` anywhere.
pub open spec fn seq_contains_char(s: Seq<char>, c: char) -> bool {
    exists|i: int| 0 <= i < s.len() && s[i] == c
}

/// Whether `pat` occurs in `s` starting at index `i`.
pub open spec fn match_at(s: Seq<char>, pat: Seq<char>, i: int) -> bool {
    &&& 0 <= i
    &&& i + pat.len() <= s.len()
    &&& forall|j: int| 0 <= j < pat.len() ==> s[i + j] == pat[j]
}

/// Whether `pat` occurs anywhere in `s` as a contiguous substring.
pub open spec fn seq_contains_sub(s: Seq<char>, pat: Seq<char>) -> bool {
    exists|i: int| match_at(s, pat, i)
}

pub fn contains_char(v: &Vec<char>, c: char) -> (r: bool)
    ensures
        r == seq_contains_char(v@, c),
{
    let mut i: usize = 0;
    while i < v.len()
        invariant
            i <= v@.len(),
            forall|j: int| 0 <= j < i ==> v@[j] != c,
        decreases v@.len() - i,
    {
        if v[i] == c {
            return true;
        }
        i += 1;
    }
    false
}

pub fn contains_sub(v: &Vec<char>, pat: &Vec<char>) -> (r: bool)
    ensures
        r == seq_contains_sub(v@, pat@),
{
    let vn = v.len();
    let pn = pat.len();
    if pn > vn {
        return false;
    }
    let mut i: usize = 0;
    while i <= vn - pn
        invariant
            vn == v@.len(),
            pn == pat@.len(),
            pn <= vn,
            i <= vn - pn + 1,
            forall|k: int| 0 <= k < i ==> !match_at(v@, pat@, k),
        decreases vn - pn + 1 - i,
    {
        let mut j: usize = 0;
        let mut hit = true;
        while j < pn
            invariant
                vn == v@.len(),
                pn == pat@.len(),
                i + pn <= vn,
                j <= pn,
                hit ==> forall|j2: int| 0 <= j2 < j ==> v@[i + j2] == pat@[j2],
                !hit ==> !match_at(v@, pat@, i as int),
            decreases pn - j,
        {
            if v[i + j] != pat[j] {
                hit = false;
            }
            j += 1;
        }
        if hit {
            assert(match_at(v@, pat@, i as int));
            return true;
        }
        i += 1;
    }
    false
}

/// Whether two character vectors hold the same characters.
pub fn chars_eq(a: &Vec<char>, b: &Vec<char>) -> (r: bool)
    ensures
        r == (a@ == b@),
{
    if a.len() != b.len() {
        return false;
    }
    let mut i: usize = 0;
    while i < a.len()
        invariant
            a@.len() == b@.len(),
            i <= a@.len(),
            forall|j: int| 0 <= j < i ==> a@[j] == b@[j],
        decreases a@.len() - i,
    {
        if a[i] != b[i] {
            return false;
        }
        i += 1;
    }
    proof {
        assert(a@ =~= b@);
    }
    true
}

/// The characters of `line` between `a` and `b`.
pub fn copy_range(line: &Vec<char>, a: usize, b: usize) -> (r: Vec<char>)
    requires
        a <= b <= line@.len(),
    ensures
        r@ == line@.subrange(a as int, b as int),
{
    let mut r: Vec<char> = Vec::new();
    let mut i: usize = a;
    while i < b
        invariant
            a <= i <= b <= line@.len(),
            r@ == line@.subrange(a as int, i as int),
        decreases b - i,
    {
        r.push(line[i]);
        i += 1;
        proof {
            assert(r@ =~= line@.subrange(a as int, i as int));
        }
    }
    r
}

/// The characters of `line` between `a` and `b`, ASCII upper-cased, as a
/// string.
pub fn upper_string(line: &Vec<char>, a: usize, b: usize) -> (r: String)
    requires
        a <= b <= line@.len(),
    ensures
        r@ == upper_seq(line@.subrange(a as int, b as int)),
{
    let mut v: Vec<char> = Vec::new();
    let mut i: usize = a;
    while i < b
        invariant
            a <= i <= b <= line@.len(),
            v@.len() == i - a,
            forall|j: int| 0 <= j < v@.len() ==> v@[j] == upper_char(line@[a + j]),
        decreases b - i,
    {
        v.push(to_upper_char(line[i]));
        i += 1;
    }
    proof {
        assert(v@ =~= upper_seq(line@.subrange(a as int, b as int)));
    }
    chars_to_string(&v)
}

/// The first index at or after `i` holding a line feed, or `s.len()`.
pub open spec fn nl_end_from(s: Seq<char>, i: int) -> int
    decreases s.len() - i,
    when 0 <= i <= s.len()
{
    if i >= s.len() {
        s.len() as int
    } else if s[i] == '\n' {
        i
    } else {
        nl_end_from(s, i + 1)
    }
}

pub proof fn lemma_nl_end_from(s: Seq<char>, i: int)
    requires
        0 <= i <= s.len(),
    ensures
        i <= nl_end_from(s, i) <= s.len(),
        nl_end_from(s, i) < s.len() ==> s[nl_end_from(s, i)] == '\n',
        forall|j: int| i <= j < nl_end_from(s, i) ==> s[j] != '\n',
    decreases s.len() - i,
{
    if i < s.len() && s[i] != '\n' {
        lemma_nl_end_from(s, i + 1);
    }
}

/// The pieces of `s` from `i` on, split on line feeds.  A trailing line
/// feed yields a final empty piece, as splitting does.
pub open spec fn split_from(s: Seq<char>, i: int) -> Seq<Seq<char>>
    decreases s.len() - i,
    when 0 <= i <= s.len()
    via split_from_dec
{
    if i > s.len() {
        Seq::empty()
    } else {
        let j = nl_end_from(s, i);
        if j < s.len() {
            seq![s.subrange(i, j)] + split_from(s, j + 1)
        } else {
            seq![s.subrange(i, s.len() as int)]
        }
    }
}

#[via_fn]
proof fn split_from_dec(s: Seq<char>, i: int) {
    if 0 <= i <= s.len() {
        lemma_nl_end_from(s, i);
    }
}

/// The lines of `s`, split on line feeds.
pub open spec fn spec_split_lines(s: Seq<char>) -> Seq<Seq<char>> {
    split_from(s, 0)
}

fn find_nl(cs: &Vec<char>, from: usize) -> (r: usize)
    requires
        from <= cs@.len(),
    ensures
        r == nl_end_from(cs@, from as int),
        from <= r <= cs@.len(),
{
    let n = cs.len();
    let mut k: usize = from;
    while k < n
        invariant
            from <= k <= n,
            n == cs@.len(),
            nl_end_from(cs@, from as int) == nl_end_from(cs@, k as int),
        decreases n - k,
    {
        if cs[k] == '\n' {
            proof {
                assert(nl_end_from(cs@, k as int) == k as int);
            }
            return k;
        }
        k += 1;
    }
    proof {
        assert(nl_end_from(cs@, n as int) == n as int);
        lemma_nl_end_from(cs@, from as int);
    }
    n
}

fn split_rest(cs: &Vec<char>, start: usize) -> (r: Vec<Vec<char>>)
    requires
        start <= cs@.len(),
    ensures
        r.deep_view() == split_from(cs@, start as int),
    decreases cs@.len() - start,
{
    let n = cs.len();
    let j = find_nl(cs, start);
    let piece = copy_range(cs, start, j);
    if j < n {
        let mut rest = split_rest(cs, j + 1);
        let ghost pre = rest.deep_view();
        let ghost prevec = rest@;
        rest.insert(0, piece);
        proof {
            prevec.insert_ensures(0, piece);
            assert forall|k: int| 0 <= k < rest@.len() implies rest@[k].deep_view() == (seq![
                piece@,
            ] + pre)[k] by {
                if k == 0 {
                    assert(rest@[0] == piece);
                } else {
                    assert(rest@[k] == prevec[k - 1]);
                    assert(prevec[k - 1].deep_view() == pre[k - 1]);
                }
            }
            assert(rest.deep_view() =~= seq![piece@] + pre);
            assert(split_from(cs@, start as int) == seq![cs@.subrange(start as int, j as int)]
                + split_from(cs@, j as int + 1));
            assert(rest.deep_view() =~= split_from(cs@, start as int));
        }
        rest
    } else {
        let mut r: Vec<Vec<char>> = Vec::new();
        r.push(piece);
        proof {
            assert(r@[0] == piece);
            assert(r.deep_view().len() == 1);
            assert(r.deep_view()[0] == piece@);
            assert(j == cs@.len());
            assert(split_from(cs@, start as int) == seq![
                cs@.subrange(start as int, cs@.len() as int),
            ]);
            assert(r.deep_view() =~= split_from(cs@, start as int));
        }
        r
    }
}

/// The lines of `cs`, split on line feeds.
pub fn split_lines(cs: &Vec<char>) -> (r: Vec<Vec<char>>)
    ensures
        r.deep_view() == spec_split_lines(cs@),
{
    split_rest(cs, 0)
}

/// Relies on `String`'s `FromIterator<char>` implementation: collecting an
/// iterator of characters yields the string holding exactly those
/// characters in order.
#[verifier::external_body]
pub(crate) fn chars_to_string(v: &Vec<char>) -> (r: String)
    ensures
        r@ == v@,
{
    v.iter().collect()
}

} // verus!
