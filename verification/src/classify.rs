//! Line classifiers: the recognized shapes of class-open lines, member
//! lines and relation lines, as specification functions over character
//! sequences, with executable scanners proved to find exactly what the
//! specifications describe.
//!
//! A class-open line yields every occurrence of "a word immediately
//! followed by `{`, optionally separated by one whitespace character"; a
//! member line yields the first occurrence of "word, space, word"; a
//! relation line is split on spaces into tokens that are trimmed,
//! upper-cased and stripped of quote characters.

use vstd::prelude::*;

use crate::model::DataType;
use crate::model::DataTypeModel;
use crate::text::chars_eq;
use crate::text::chars_to_string;
use crate::text::copy_range;
use crate::text::is_space;
use crate::text::is_space_char;
use crate::text::is_word;
use crate::text::is_word_char;
use crate::text::str_chars;
use crate::text::to_upper_char;
use crate::text::upper_char;
use crate::text::upper_seq;
use crate::text::upper_string;

verus! {

/// The first index at or after `i` holding a non-word character, or
/// `s.len()`: the end of the word run starting at `i`.
pub open spec fn word_end_from(s: Seq<char>, i: int) -> int
    decreases s.len() - i,
    when 0 <= i <= s.len()
{
    if i >= s.len() {
        s.len() as int
    } else if !is_word_char(s[i]) {
        i
    } else {
        word_end_from(s, i + 1)
    }
}

pub proof fn lemma_word_end_from(s: Seq<char>, i: int)
    requires
        0 <= i <= s.len(),
    ensures
        i <= word_end_from(s, i) <= s.len(),
        word_end_from(s, i) < s.len() ==> !is_word_char(s[word_end_from(s, i)]),
        forall|j: int| i <= j < word_end_from(s, i) ==> is_word_char(s[j]),
    decreases s.len() - i,
{
    if i < s.len() && is_word_char(s[i]) {
        lemma_word_end_from(s, i + 1);
    }
}

/// The first index at or after `i` holding a space, or `s.len()`.
pub open spec fn space_end_from(s: Seq<char>, i: int) -> int
    decreases s.len() - i,
    when 0 <= i <= s.len()
{
    if i >= s.len() {
        s.len() as int
    } else if s[i] == ' ' {
        i
    } else {
        space_end_from(s, i + 1)
    }
}

pub proof fn lemma_space_end_from(s: Seq<char>, i: int)
    requires
        0 <= i <= s.len(),
    ensures
        i <= space_end_from(s, i) <= s.len(),
        space_end_from(s, i) < s.len() ==> s[space_end_from(s, i)] == ' ',
        forall|j: int| i <= j < space_end_from(s, i) ==> s[j] != ' ',
    decreases s.len() - i,
{
    if i < s.len() && s[i] != ' ' {
        lemma_space_end_from(s, i + 1);
    }
}

/// All class names declared on a line, scanning from `pos`: for each word
/// run followed by `{` — directly, or after one whitespace character — the
/// word, upper-cased, in order of occurrence.
pub open spec fn class_names_from(line: Seq<char>, pos: int) -> Seq<Seq<char>>
    decreases line.len() - pos,
    when 0 <= pos <= line.len()
    via class_names_from_dec
{
    if pos >= line.len() {
        Seq::empty()
    } else if !is_word_char(line[pos]) {
        class_names_from(line, pos + 1)
    } else {
        let j = word_end_from(line, pos);
        if j < line.len() && line[j] == '{' {
            seq![upper_seq(line.subrange(pos, j))] + class_names_from(line, j + 1)
        } else if j + 1 < line.len() && is_space_char(line[j]) && line[j + 1] == '{' {
            seq![upper_seq(line.subrange(pos, j))] + class_names_from(line, j + 2)
        } else {
            class_names_from(line, j)
        }
    }
}

#[via_fn]
proof fn class_names_from_dec(line: Seq<char>, pos: int) {
    if 0 <= pos < line.len() && is_word_char(line[pos]) {
        assert(word_end_from(line, pos) == word_end_from(line, pos + 1));
        lemma_word_end_from(line, pos + 1);
    }
}

/// The first member shape on a line, scanning from `pos`: a word run, one
/// space, and a second word run; yields the two words.
pub open spec fn member_from(line: Seq<char>, pos: int) -> Option<(Seq<char>, Seq<char>)>
    decreases line.len() - pos,
    when 0 <= pos <= line.len()
    via member_from_dec
{
    if pos >= line.len() {
        None
    } else if !is_word_char(line[pos]) {
        member_from(line, pos + 1)
    } else {
        let j = word_end_from(line, pos);
        if j < line.len() && line[j] == ' ' && j + 1 < line.len() && is_word_char(line[j + 1]) {
            let k = word_end_from(line, j + 1);
            Some((line.subrange(pos, j), line.subrange(j + 1, k)))
        } else {
            member_from(line, j)
        }
    }
}

#[via_fn]
proof fn member_from_dec(line: Seq<char>, pos: int) {
    if 0 <= pos < line.len() && is_word_char(line[pos]) {
        assert(word_end_from(line, pos) == word_end_from(line, pos + 1));
        lemma_word_end_from(line, pos + 1);
    }
}

/// `s` without leading whitespace.
pub open spec fn trim_front(s: Seq<char>) -> Seq<char>
    decreases s.len(),
{
    if s.len() > 0 && is_space_char(s[0]) {
        trim_front(s.drop_first())
    } else {
        s
    }
}

/// `s` without trailing whitespace.
pub open spec fn trim_back(s: Seq<char>) -> Seq<char>
    decreases s.len(),
{
    if s.len() > 0 && is_space_char(s.last()) {
        trim_back(s.drop_last())
    } else {
        s
    }
}

/// `s` without leading or trailing whitespace.
pub open spec fn spec_trim(s: Seq<char>) -> Seq<char> {
    trim_back(trim_front(s))
}

/// `s` without any quote characters.
pub open spec fn strip_quotes(s: Seq<char>) -> Seq<char>
    decreases s.len(),
{
    if s.len() == 0 {
        s
    } else if s.last() == '"' {
        strip_quotes(s.drop_last())
    } else {
        strip_quotes(s.drop_last()).push(s.last())
    }
}

/// What a raw relation token becomes: trimmed, upper-cased, and stripped
/// of quote characters.
pub open spec fn token_transform(t: Seq<char>) -> Seq<char> {
    strip_quotes(upper_seq(spec_trim(t)))
}

/// The tokens of a relation line from `pos` on: the maximal space-free
/// runs, each transformed by `token_transform`.
pub open spec fn rel_tokens_from(line: Seq<char>, pos: int) -> Seq<Seq<char>>
    decreases line.len() - pos,
    when 0 <= pos <= line.len()
    via rel_tokens_from_dec
{
    if pos >= line.len() {
        Seq::empty()
    } else if line[pos] == ' ' {
        rel_tokens_from(line, pos + 1)
    } else {
        let j = space_end_from(line, pos);
        seq![token_transform(line.subrange(pos, j))] + rel_tokens_from(line, j)
    }
}

#[via_fn]
proof fn rel_tokens_from_dec(line: Seq<char>, pos: int) {
    if 0 <= pos < line.len() && line[pos] != ' ' {
        assert(space_end_from(line, pos) == space_end_from(line, pos + 1));
        lemma_space_end_from(line, pos + 1);
    }
}

/// What the first word of a member line means as a type: an exact
/// primitive name, or a foreign key to the class of that name.
pub open spec fn resolve_type_token(w: Seq<char>) -> DataTypeModel {
    if w == "string"@ {
        DataTypeModel::STRING
    } else if w == "float"@ {
        DataTypeModel::FLOAT
    } else if w == "int"@ {
        DataTypeModel::INTEGER
    } else if w == "bool"@ {
        DataTypeModel::BOOL
    } else if w == "datetime"@ {
        DataTypeModel::DATETIME
    } else if w == "double"@ {
        DataTypeModel::DOUBLE
    } else if w == "char"@ {
        DataTypeModel::CHAR
    } else {
        DataTypeModel::FOREIGN_KEY(w)
    }
}

/// The end of the word run starting at `from`.
fn word_end(line: &Vec<char>, from: usize) -> (r: usize)
    requires
        from <= line@.len(),
    ensures
        r == word_end_from(line@, from as int),
        from <= r <= line@.len(),
{
    let n = line.len();
    let mut k: usize = from;
    while k < n
        invariant
            from <= k <= n,
            n == line@.len(),
            word_end_from(line@, from as int) == word_end_from(line@, k as int),
        decreases n - k,
    {
        if !is_word(line[k]) {
            proof {
                assert(word_end_from(line@, k as int) == k as int);
            }
            return k;
        }
        k += 1;
    }
    proof {
        assert(word_end_from(line@, n as int) == n as int);
        lemma_word_end_from(line@, from as int);
    }
    n
}

/// The first space at or after `from`.
fn find_space(line: &Vec<char>, from: usize) -> (r: usize)
    requires
        from <= line@.len(),
    ensures
        r == space_end_from(line@, from as int),
        from <= r <= line@.len(),
{
    let n = line.len();
    let mut k: usize = from;
    while k < n
        invariant
            from <= k <= n,
            n == line@.len(),
            space_end_from(line@, from as int) == space_end_from(line@, k as int),
        decreases n - k,
    {
        if line[k] == ' ' {
            proof {
                assert(space_end_from(line@, k as int) == k as int);
            }
            return k;
        }
        k += 1;
    }
    proof {
        assert(space_end_from(line@, n as int) == n as int);
        lemma_space_end_from(line@, from as int);
    }
    n
}

/// All class names declared on the line, upper-cased, in order.
pub fn class_names(line: &Vec<char>) -> (r: Vec<String>)
    ensures
        r.deep_view() == class_names_from(line@, 0),
{
    let n = line.len();
    let mut r: Vec<String> = Vec::new();
    let mut pos: usize = 0;
    while pos < n
        invariant
            pos <= n,
            n == line@.len(),
            class_names_from(line@, 0) == r.deep_view() + class_names_from(line@, pos as int),
        decreases n - pos,
    {
        if is_word(line[pos]) {
            let j = word_end(line, pos);
            proof {
                assert(word_end_from(line@, pos as int) == word_end_from(line@, pos as int + 1));
                lemma_word_end_from(line@, pos as int + 1);
            }
            let take: usize = if j < n && line[j] == '{' {
                1
            } else if j < n && is_space(line[j]) && j + 1 < n && line[j + 1] == '{' {
                2
            } else {
                0
            };
            if take > 0 {
                let nm = upper_string(line, pos, j);
                let ghost pre = r.deep_view();
                let ghost prevec = r@;
                r.push(nm);
                proof {
                    assert forall|k: int| 0 <= k < r@.len() implies r@[k].deep_view() == pre.push(
                        nm@,
                    )[k] by {
                        if k < pre.len() {
                            assert(r@[k] == prevec[k]);
                        } else {
                            assert(r@[k] == nm);
                        }
                    }
                    assert(r.deep_view() =~= pre.push(nm@));
                    assert(pre.push(nm@) =~= pre + seq![upper_seq(
                        line@.subrange(pos as int, j as int),
                    )]);
                }
                let newpos = if take == 1 {
                    j + 1
                } else {
                    j + 2
                };
                proof {
                    assert(class_names_from(line@, pos as int) == seq![upper_seq(
                        line@.subrange(pos as int, j as int),
                    )] + class_names_from(line@, newpos as int));
                    assert(r.deep_view() + class_names_from(line@, newpos as int)
                        =~= (pre + seq![upper_seq(line@.subrange(pos as int, j as int))])
                        + class_names_from(line@, newpos as int));
                    assert((pre + seq![upper_seq(line@.subrange(pos as int, j as int))])
                        + class_names_from(line@, newpos as int) =~= pre + class_names_from(
                        line@,
                        pos as int,
                    ));
                }
                pos = newpos;
            } else {
                proof {
                    assert(class_names_from(line@, pos as int) == class_names_from(
                        line@,
                        j as int,
                    ));
                }
                pos = j;
            }
        } else {
            proof {
                assert(class_names_from(line@, pos as int) == class_names_from(
                    line@,
                    pos as int + 1,
                ));
            }
            pos += 1;
        }
    }
    proof {
        assert(class_names_from(line@, n as int) =~= Seq::<Seq<char>>::empty());
        assert(r.deep_view() =~= r.deep_view() + class_names_from(line@, n as int));
    }
    r
}

/// The first member shape on the line: the type word and the name word.
pub fn member_match(line: &Vec<char>) -> (r: Option<(Vec<char>, Vec<char>)>)
    ensures
        match r {
            Some(p) => member_from(line@, 0) == Some((p.0@, p.1@)),
            None => member_from(line@, 0) is None,
        },
{
    let n = line.len();
    let mut pos: usize = 0;
    while pos < n
        invariant
            pos <= n,
            n == line@.len(),
            member_from(line@, 0) == member_from(line@, pos as int),
        decreases n - pos,
    {
        if is_word(line[pos]) {
            let j = word_end(line, pos);
            proof {
                assert(word_end_from(line@, pos as int) == word_end_from(line@, pos as int + 1));
                lemma_word_end_from(line@, pos as int + 1);
            }
            if j < n && line[j] == ' ' && j + 1 < n && is_word(line[j + 1]) {
                let k = word_end(line, j + 1);
                let w1 = copy_range(line, pos, j);
                let w2 = copy_range(line, j + 1, k);
                return Some((w1, w2));
            } else {
                proof {
                    assert(member_from(line@, pos as int) == member_from(line@, j as int));
                }
                pos = j;
            }
        } else {
            proof {
                assert(member_from(line@, pos as int) == member_from(line@, pos as int + 1));
            }
            pos += 1;
        }
    }
    proof {
        assert(member_from(line@, n as int) is None);
    }
    None
}

/// One raw token `line[a..b]`, transformed as relation tokens are.
fn transform_token(line: &Vec<char>, a: usize, b: usize) -> (t: Vec<char>)
    requires
        a <= b <= line@.len(),
    ensures
        t@ == token_transform(line@.subrange(a as int, b as int)),
{
    let ghost sub = line@.subrange(a as int, b as int);
    let mut raw = copy_range(line, a, b);
    while raw.len() > 0 && is_space(raw[0])
        invariant
            trim_front(sub) == trim_front(raw@),
        decreases raw@.len(),
    {
        let ghost pre = raw@;
        raw.remove(0);
        proof {
            assert(raw@ =~= pre.drop_first());
        }
    }
    proof {
        assert(trim_front(raw@) == raw@);
    }
    while raw.len() > 0 && is_space(raw[raw.len() - 1])
        invariant
            trim_back(trim_front(sub)) == trim_back(raw@),
        decreases raw@.len(),
    {
        let ghost pre = raw@;
        raw.pop();
        proof {
            assert(raw@ =~= pre.drop_last());
        }
    }
    proof {
        assert(trim_back(raw@) == raw@);
        assert(raw@ == spec_trim(sub));
    }
    let m = raw.len();
    let mut up: Vec<char> = Vec::new();
    let mut i: usize = 0;
    while i < m
        invariant
            i <= m,
            m == raw@.len(),
            up@.len() == i,
            forall|j: int| 0 <= j < i ==> up@[j] == upper_char(raw@[j]),
        decreases m - i,
    {
        up.push(to_upper_char(raw[i]));
        i += 1;
    }
    proof {
        assert(up@ =~= upper_seq(raw@));
    }
    let mut out: Vec<char> = Vec::new();
    let mut k: usize = 0;
    while k < m
        invariant
            k <= m,
            m == up@.len(),
            out@ == strip_quotes(up@.take(k as int)),
        decreases m - k,
    {
        proof {
            assert(up@.take(k as int + 1).drop_last() =~= up@.take(k as int));
            assert(up@.take(k as int + 1).last() == up@[k as int]);
        }
        if up[k] != '"' {
            out.push(up[k]);
        }
        k += 1;
    }
    proof {
        assert(up@.take(m as int) =~= up@);
        assert(out@ == token_transform(sub));
    }
    out
}

/// The transformed tokens of a relation line, in order.
pub fn rel_tokens(line: &Vec<char>) -> (r: Vec<Vec<char>>)
    ensures
        r.deep_view() == rel_tokens_from(line@, 0),
{
    let n = line.len();
    let mut r: Vec<Vec<char>> = Vec::new();
    let mut pos: usize = 0;
    while pos < n
        invariant
            pos <= n,
            n == line@.len(),
            rel_tokens_from(line@, 0) == r.deep_view() + rel_tokens_from(line@, pos as int),
        decreases n - pos,
    {
        if line[pos] == ' ' {
            proof {
                assert(rel_tokens_from(line@, pos as int) == rel_tokens_from(
                    line@,
                    pos as int + 1,
                ));
            }
            pos += 1;
        } else {
            let j = find_space(line, pos);
            proof {
                assert(space_end_from(line@, pos as int) == space_end_from(line@, pos as int + 1));
                lemma_space_end_from(line@, pos as int + 1);
            }
            let t = transform_token(line, pos, j);
            let ghost pre = r.deep_view();
            let ghost prevec = r@;
            r.push(t);
            proof {
                assert forall|k: int| 0 <= k < r@.len() implies r@[k].deep_view() == pre.push(
                    t@,
                )[k] by {
                    if k < pre.len() {
                        assert(r@[k] == prevec[k]);
                    } else {
                        assert(r@[k] == t);
                    }
                }
                assert(r.deep_view() =~= pre.push(t@));
                assert(rel_tokens_from(line@, pos as int) == seq![token_transform(
                    line@.subrange(pos as int, j as int),
                )] + rel_tokens_from(line@, j as int));
                assert(r.deep_view() + rel_tokens_from(line@, j as int) =~= pre + rel_tokens_from(
                    line@,
                    pos as int,
                ));
            }
            pos = j;
        }
    }
    proof {
        assert(rel_tokens_from(line@, n as int) =~= Seq::<Seq<char>>::empty());
        assert(r.deep_view() =~= r.deep_view() + rel_tokens_from(line@, n as int));
    }
    r
}

/// The data type named by a member line's first word.
pub fn resolve_type(w: &Vec<char>) -> (r: DataType)
    ensures
        r@ == resolve_type_token(w@),
{
    if chars_eq(w, &str_chars("string")) {
        DataType::STRING
    } else if chars_eq(w, &str_chars("float")) {
        DataType::FLOAT
    } else if chars_eq(w, &str_chars("int")) {
        DataType::INTEGER
    } else if chars_eq(w, &str_chars("bool")) {
        DataType::BOOL
    } else if chars_eq(w, &str_chars("datetime")) {
        DataType::DATETIME
    } else if chars_eq(w, &str_chars("double")) {
        DataType::DOUBLE
    } else if chars_eq(w, &str_chars("char")) {
        DataType::CHAR
    } else {
        DataType::FOREIGN_KEY(chars_to_string(w))
    }
}

} // verus!
