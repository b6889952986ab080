//! Verified text utilities: conversion between strings and character
//! vectors, whitespace handling, tokenizing, substring counting, joining and
//! number formatting.
use vstd::prelude::*;
use vstd::std_specs::iter::IteratorSpec;

verus! {

broadcast use vstd::string::group_string_axioms;

/// Appends one character to a `String` (`String::push`).
/// Claimed: the string afterwards holds its old characters followed by `c`.
#[verifier::external_body]
pub(crate) fn push_char(s: &mut String, c: char)
    ensures
        final(s)@ == old(s)@.push(c),
{
    s.push(c);
}

/// The characters of `s`, in order.
pub fn chars_of(s: &str) -> (v: Vec<char>)
    ensures
        v@ == s@,
{
    let mut v: Vec<char> = Vec::new();
    let mut it = s.chars();
    loop
        invariant
            v.len() <= s@.len(),
            v@ == s@.take(v.len() as int),
            it.remaining() == s@.skip(v.len() as int),
            it.obeys_prophetic_iter_laws(),
        decreases s@.len() - v.len(),
    {
        match it.next() {
            Some(c) => {
                v.push(c);
                assert(v@ =~= s@.take(v.len() as int));
            }
            None => {
                assert(v@ =~= s@);
                return v;
            }
        }
    }
}

} // verus!

verus! {

/// Builds a string holding exactly the characters of `v`.
pub fn string_of(v: &Vec<char>) -> (s: String)
    ensures
        s@ == v@,
{
    let mut s = String::new();
    let mut i: usize = 0;
    while i < v.len()
        invariant
            i <= v.len(),
            s@ == v@.take(i as int),
        decreases v.len() - i,
    {
        push_char(&mut s, v[i]);
        i += 1;
        assert(s@ =~= v@.take(i as int));
    }
    assert(v@.take(v.len() as int) =~= v@);
    s
}

/// The Unicode `White_Space` property, the set that `char::is_whitespace`
/// documents.
pub open spec fn is_white_space(c: char) -> bool {
    let u = c as u32;
    ||| (0x09 <= u && u <= 0x0d)
    ||| u == 0x20
    ||| u == 0x85
    ||| u == 0xa0
    ||| u == 0x1680
    ||| (0x2000 <= u && u <= 0x200a)
    ||| u == 0x2028
    ||| u == 0x2029
    ||| u == 0x202f
    ||| u == 0x205f
    ||| u == 0x3000
}

/// Whether `c` is a Unicode white-space character.
pub fn is_whitespace(c: char) -> (b: bool)
    ensures
        b == is_white_space(c),
{
    let u = c as u32;
    (0x09 <= u && u <= 0x0d) || u == 0x20 || u == 0x85 || u == 0xa0 || u == 0x1680 || (0x2000
        <= u && u <= 0x200a) || u == 0x2028 || u == 0x2029 || u == 0x202f || u == 0x205f || u
        == 0x3000
}

/// True when the text holds nothing but white space (what
/// `s.trim().is_empty()` tests).
pub open spec fn is_blank(s: Seq<char>) -> bool {
    forall|i: int| 0 <= i < s.len() ==> is_white_space(#[trigger] s[i])
}

/// Whether the text is empty once leading and trailing white space is removed.
pub fn is_blank_text(s: &str) -> (b: bool)
    ensures
        b == is_blank(s@),
{
    let v = chars_of(s);
    let mut i: usize = 0;
    while i < v.len()
        invariant
            i <= v.len(),
            v@ == s@,
            forall|j: int| 0 <= j < i ==> is_white_space(#[trigger] v@[j]),
        decreases v.len() - i,
    {
        if !is_whitespace(v[i]) {
            return false;
        }
        i += 1;
    }
    true
}

/// Left-to-right scan state of `split_whitespace`: the words already closed
/// and the word being read.
pub open spec fn split_state(s: Seq<char>) -> (Seq<Seq<char>>, Seq<char>)
    decreases s.len(),
{
    if s.len() == 0 {
        (Seq::empty(), Seq::empty())
    } else {
        let (done, cur) = split_state(s.drop_last());
        if is_white_space(s.last()) {
            if cur.len() > 0 {
                (done.push(cur), Seq::empty())
            } else {
                (done, Seq::empty())
            }
        } else {
            (done, cur.push(s.last()))
        }
    }
}

/// The maximal runs of non-white-space characters of `s`, in order
/// (`str::split_whitespace`).
pub open spec fn words(s: Seq<char>) -> Seq<Seq<char>> {
    let (done, cur) = split_state(s);
    if cur.len() > 0 {
        done.push(cur)
    } else {
        done
    }
}

/// Splits `s` at white space into its non-empty words.
pub fn split_whitespace(s: &str) -> (r: Vec<String>)
    ensures
        r.deep_view() == words(s@),
{
    let v = chars_of(s);
    let mut done: Vec<String> = Vec::new();
    let mut cur: Vec<char> = Vec::new();
    let mut i: usize = 0;
    while i < v.len()
        invariant
            i <= v.len(),
            v@ == s@,
            (done.deep_view(), cur@) == split_state(v@.take(i as int)),
        decreases v.len() - i,
    {
        let c = v[i];
        proof {
            assert(v@.take(i + 1).drop_last() =~= v@.take(i as int));
        }
        if is_whitespace(c) {
            if cur.len() > 0 {
                let w = string_of(&cur);
                done.push(w);
                cur = Vec::new();
                assert(done.deep_view() =~= split_state(v@.take(i + 1)).0);
                assert(cur@ =~= split_state(v@.take(i + 1)).1);
            } else {
                cur = Vec::new();
                assert(cur@ =~= split_state(v@.take(i + 1)).1);
            }
        } else {
            cur.push(c);
        }
        i += 1;
    }
    assert(v@.take(v.len() as int) =~= v@);
    if cur.len() > 0 {
        let w = string_of(&cur);
        done.push(w);
        assert(done.deep_view() =~= words(s@));
    }
    done
}

/// Every word of `s` is non-empty and holds no white space.
pub proof fn lemma_words_are_clean(s: Seq<char>)
    ensures
        forall|i: int|
            0 <= i < words(s).len() ==> (#[trigger] words(s)[i]).len() > 0 && forall|j: int|
                0 <= j < words(s)[i].len() ==> !is_white_space(words(s)[i][j]),
{
    lemma_split_state_clean(s);
}

proof fn lemma_split_state_clean(s: Seq<char>)
    ensures
        forall|i: int|
            0 <= i < split_state(s).0.len() ==> (#[trigger] split_state(s).0[i]).len() > 0
                && forall|j: int|
                0 <= j < split_state(s).0[i].len() ==> !is_white_space(split_state(s).0[i][j]),
        forall|j: int|
            0 <= j < split_state(s).1.len() ==> !is_white_space(#[trigger] split_state(s).1[j]),
    decreases s.len(),
{
    if s.len() > 0 {
        let p = s.drop_last();
        lemma_split_state_clean(p);
        let done = split_state(p).0;
        let cur = split_state(p).1;
        let c = s.last();
        if is_white_space(c) {
            if cur.len() > 0 {
                assert(split_state(s).0 == done.push(cur));
                assert forall|i: int| 0 <= i < done.push(cur).len() implies (#[trigger] done.push(
                    cur,
                )[i]).len() > 0 && forall|j: int|
                    0 <= j < done.push(cur)[i].len() ==> !is_white_space(done.push(cur)[i][j]) by {
                    if i < done.len() {
                        assert(done.push(cur)[i] == done[i]);
                    } else {
                        assert(done.push(cur)[i] == cur);
                        assert forall|j: int| 0 <= j < cur.len() implies !is_white_space(
                            cur[j],
                        ) by {}
                    }
                }
            }
        } else {
            assert(split_state(s).1 == cur.push(c));
            assert forall|j: int| 0 <= j < cur.push(c).len() implies !is_white_space(
                #[trigger] cur.push(c)[j],
            ) by {
                if j < cur.len() {
                    assert(cur.push(c)[j] == cur[j]);
                }
            }
        }
    }
}

/// Lower-case form of a text, as `str::to_lowercase` computes it.
pub uninterp spec fn lowercase_of(s: Seq<char>) -> Seq<char>;

/// Lower-cases a text (`str::to_lowercase`).
/// Claimed: the result is `lowercase_of` the input; nothing more is stated
/// of the Unicode case mapping itself.
#[verifier::external_body]
pub(crate) fn to_lowercase(s: &str) -> (r: String)
    ensures
        r@ == lowercase_of(s@),
{
    s.to_lowercase()
}

/// Number of non-overlapping occurrences of a non-empty `p` in `t` at or
/// after position `i`, found greedily from the left.
pub open spec fn count_occurrences_from(t: Seq<char>, p: Seq<char>, i: int) -> nat
    decreases t.len() - i,
{
    if p.len() == 0 || i < 0 || i + p.len() > t.len() {
        0
    } else if t.subrange(i, i + p.len()) == p {
        1 + count_occurrences_from(t, p, i + p.len())
    } else {
        count_occurrences_from(t, p, i + 1)
    }
}

/// What `t.matches(p).count()` returns: the non-overlapping occurrences of
/// `p`, or one match per character boundary when `p` is empty.
pub open spec fn match_count(t: Seq<char>, p: Seq<char>) -> nat {
    if p.len() == 0 {
        t.len() + 1
    } else {
        count_occurrences_from(t, p, 0)
    }
}

fn occurs_at_exec(t: &Vec<char>, p: &Vec<char>, i: usize) -> (b: bool)
    requires
        i + p.len() <= t.len(),
    ensures
        b == (t@.subrange(i as int, i + p.len()) == p@),
{
    let mut k: usize = 0;
    while k < p.len()
        invariant
            k <= p.len(),
            i + p.len() <= t.len(),
            forall|j: int| 0 <= j < k ==> t@[i + j] == p@[j],
        decreases p.len() - k,
    {
        if t[i + k] != p[k] {
            assert(t@.subrange(i as int, i + p.len())[k as int] != p@[k as int]);
            return false;
        }
        k += 1;
    }
    assert(t@.subrange(i as int, i + p.len()) =~= p@);
    true
}

/// Counts the non-overlapping occurrences of `pattern` in `text`
/// (`text.matches(pattern).count()`).
pub fn count_matches(text: &Vec<char>, pattern: &Vec<char>) -> (n: usize)
    requires
        text.len() < usize::MAX,
    ensures
        n == match_count(text@, pattern@),
{
    if pattern.len() == 0 {
        return text.len() + 1;
    }
    let mut i: usize = 0;
    let mut n: usize = 0;
    while pattern.len() <= text.len() - i
        invariant
            pattern.len() > 0,
            i <= text.len(),
            n + count_occurrences_from(text@, pattern@, i as int) == match_count(
                text@,
                pattern@,
            ),
            n <= i,
        decreases text.len() - i,
    {
        if occurs_at_exec(text, pattern, i) {
            n += 1;
            i += pattern.len();
        } else {
            i += 1;
        }
    }
    n
}

/// Concatenation of `parts` with `sep` between neighbours
/// (`[String]::join`).
pub open spec fn join(parts: Seq<Seq<char>>, sep: Seq<char>) -> Seq<char>
    decreases parts.len(),
{
    if parts.len() == 0 {
        Seq::empty()
    } else if parts.len() == 1 {
        parts[0]
    } else {
        join(parts.drop_last(), sep) + sep + parts.last()
    }
}

/// Joins the strings with `sep` between neighbours.
pub fn join_strings(parts: &Vec<String>, sep: &str) -> (r: String)
    ensures
        r@ == join(parts.deep_view(), sep@),
{
    let mut r = String::new();
    let mut i: usize = 0;
    while i < parts.len()
        invariant
            i <= parts.len(),
            r@ == join(parts.deep_view().take(i as int), sep@),
        decreases parts.len() - i,
    {
        proof {
            assert(parts.deep_view().take(i + 1).drop_last() =~= parts.deep_view().take(i as int));
        }
        if i > 0 {
            r.append(sep);
        }
        r.append(parts[i].as_str());
        i += 1;
        proof {
            if i == 1 {
                assert(r@ =~= join(parts.deep_view().take(i as int), sep@));
            }
        }
    }
    assert(parts.deep_view().take(parts.len() as int) =~= parts.deep_view());
    r
}

} // verus!

verus! {

/// Whether two texts hold the same characters.
pub fn text_eq(a: &str, b: &str) -> (r: bool)
    ensures
        r == (a@ == b@),
{
    let x = chars_of(a);
    let y = chars_of(b);
    if x.len() != y.len() {
        return false;
    }
    let mut i: usize = 0;
    while i < x.len()
        invariant
            i <= x.len(),
            x.len() == y.len(),
            x@ == a@,
            y@ == b@,
            forall|j: int| 0 <= j < i ==> x@[j] == y@[j],
        decreases x.len() - i,
    {
        if x[i] != y[i] {
            return false;
        }
        i += 1;
    }
    assert(x@ =~= y@);
    true
}

/// A fresh string with the characters of `s`.
pub fn owned(s: &str) -> (r: String)
    ensures
        r@ == s@,
{
    let v = chars_of(s);
    string_of(&v)
}

/// `a` followed by `b`.
pub fn concat_str(a: &str, b: &str) -> (r: String)
    ensures
        r@ == a@ + b@,
{
    let mut r = owned(a);
    r.append(b);
    r
}

} // verus!
