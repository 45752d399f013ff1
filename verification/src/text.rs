//! Texts as sequences of characters: conversions between strings and
//! character vectors, and the prefix and substring tests.

use vstd::prelude::*;

verus! {

/// `p` is a leading part of `s`.
pub open spec fn is_prefix(p: Seq<char>, s: Seq<char>) -> bool {
    p.len() <= s.len() && s.subrange(0, p.len() as int) == p
}

/// `needle` occurs in `s` at position `at`.
pub open spec fn occurs_at(needle: Seq<char>, s: Seq<char>, at: int) -> bool {
    0 <= at && at + needle.len() <= s.len() && s.subrange(at, at + needle.len()) == needle
}

/// `needle` occurs somewhere in `s`.
pub open spec fn contains_text(s: Seq<char>, needle: Seq<char>) -> bool {
    exists|at: int| occurs_at(needle, s, at)
}

/// `std::string::String::push` appends one character to the end of the string.
pub assume_specification[ String::push ](s: &mut String, c: char)
    ensures
        final(s)@ == old(s)@.push(c),
;

/// The characters of `s`, in order.
pub fn chars_of(s: &str) -> (v: Vec<char>)
    ensures
        v@ == s@,
{
    let mut v: Vec<char> = Vec::new();
    for c in it: s.chars()
        invariant
            v@ == it.seq().take(it.index()),
            it.seq() == s@,
    {
        v.push(c);
    }
    v
}

/// The string made of the characters of `v`, in order.
pub fn string_of(v: &Vec<char>) -> (s: String)
    ensures
        s@ == v@,
{
    let mut s = String::new();
    let mut i: usize = 0;
    while i < v.len()
        invariant
            i <= v.len(),
            s@ == v@.take(i as int),
        decreases v.len() - i,
    {
        s.push(v[i]);
        proof {
            assert(v@.take(i as int).push(v@[i as int]) =~= v@.take(i + 1));
        }
        i += 1;
    }
    s
}

/// The texts that a vector of character vectors holds.
pub open spec fn views_of(v: Seq<Vec<char>>) -> Seq<Seq<char>> {
    Seq::new(v.len(), |i: int| v[i]@)
}

/// The characters of each text of `names`, in order.
pub fn chars_of_each(names: &Vec<String>) -> (r: Vec<Vec<char>>)
    ensures
        views_of(r@) == names.deep_view(),
{
    let mut r: Vec<Vec<char>> = Vec::new();
    let mut i: usize = 0;
    while i < names.len()
        invariant
            i <= names.len(),
            r.len() == i,
            forall|k: int| 0 <= k < i ==> r[k]@ == names[k]@,
        decreases names.len() - i,
    {
        r.push(chars_of(names[i].as_str()));
        i += 1;
    }
    assert(views_of(r@) =~= names.deep_view());
    r
}

/// Whether `at` is a place where `needle` lies in `s`.
fn matches_at(s: &Vec<char>, needle: &Vec<char>, at: usize) -> (r: bool)
    requires
        at + needle.len() <= s.len(),
    ensures
        r == occurs_at(needle@, s@, at as int),
{
    let mut i: usize = 0;
    while i < needle.len()
        invariant
            i <= needle.len(),
            at + needle.len() <= s.len(),
            forall|k: int| 0 <= k < i ==> s[at + k] == needle[k],
        decreases needle.len() - i,
    {
        if s[at + i] != needle[i] {
            assert(s@.subrange(at as int, at + needle.len())[i as int] != needle@[i as int]);
            return false;
        }
        i += 1;
    }
    assert(s@.subrange(at as int, at + needle.len()) =~= needle@);
    true
}

/// Whether `s` begins with `p`.
pub fn starts_with(s: &Vec<char>, p: &Vec<char>) -> (r: bool)
    ensures
        r == is_prefix(p@, s@),
{
    if p.len() > s.len() {
        return false;
    }
    matches_at(s, p, 0)
}

/// Whether `needle` occurs somewhere in `s`.
pub fn contains(s: &Vec<char>, needle: &Vec<char>) -> (r: bool)
    ensures
        r == contains_text(s@, needle@),
{
    if needle.len() > s.len() {
        return false;
    }
    if needle.len() == 0 {
        assert(occurs_at(needle@, s@, 0)) by {
            assert(s@.subrange(0, 0) =~= needle@);
        }
        return true;
    }
    let last: usize = s.len() - needle.len();
    let mut at: usize = 0;
    while at <= last
        invariant
            at <= last + 1,
            last == s.len() - needle.len(),
            needle.len() > 0,
            forall|k: int| 0 <= k < at ==> !occurs_at(needle@, s@, k),
        decreases last + 1 - at,
    {
        if matches_at(s, needle, at) {
            return true;
        }
        at += 1;
    }
    false
}

/// The character of the decimal digit `d`.
pub open spec fn digit(d: int) -> char {
    if d == 0 {
        '0'
    } else if d == 1 {
        '1'
    } else if d == 2 {
        '2'
    } else if d == 3 {
        '3'
    } else if d == 4 {
        '4'
    } else if d == 5 {
        '5'
    } else if d == 6 {
        '6'
    } else if d == 7 {
        '7'
    } else if d == 8 {
        '8'
    } else {
        '9'
    }
}

/// The decimal digits of `n`, the most significant first.
pub open spec fn digits(n: nat) -> Seq<char>
    decreases n,
{
    if n < 10 {
        seq![digit(n as int)]
    } else {
        digits(n / 10).push(digit((n % 10) as int))
    }
}

/// The number `n` in decimal notation, with a minus sign where it is
/// negative.
pub open spec fn decimal(n: int) -> Seq<char> {
    if n < 0 {
        seq!['-'] + digits((-n) as nat)
    } else {
        digits(n as nat)
    }
}

/// The character of the decimal digit `d`.
fn digit_char(d: u64) -> (c: char)
    requires
        d < 10,
    ensures
        c == digit(d as int),
{
    if d == 0 {
        '0'
    } else if d == 1 {
        '1'
    } else if d == 2 {
        '2'
    } else if d == 3 {
        '3'
    } else if d == 4 {
        '4'
    } else if d == 5 {
        '5'
    } else if d == 6 {
        '6'
    } else if d == 7 {
        '7'
    } else if d == 8 {
        '8'
    } else {
        '9'
    }
}

/// Appends the decimal digits of `n` to `out`.
fn push_digits(n: u64, out: &mut String)
    ensures
        final(out)@ == old(out)@ + digits(n as nat),
    decreases n,
{
    if n >= 10 {
        push_digits(n / 10, out);
    }
    out.push(digit_char(n % 10));
    assert(final(out)@ =~= old(out)@ + digits(n as nat));
}

/// Appends the number `n` in decimal notation to `out`.
pub fn push_decimal(n: i32, out: &mut String)
    ensures
        final(out)@ == old(out)@ + decimal(n as int),
{
    if n < 0 {
        out.push('-');
        let magnitude: u64 = (-(n as i64)) as u64;
        push_digits(magnitude, out);
        assert(final(out)@ =~= old(out)@ + decimal(n as int));
    } else {
        push_digits(n as u64, out);
    }
}

/// What `str::to_lowercase` makes of `text`.
pub uninterp spec fn lowercase(text: Seq<char>) -> Seq<char>;

/// `str::to_lowercase` returns the lowercase equivalent of the string as a
/// new string. Nothing is claimed of it but that it is a function of the
/// text.
pub assume_specification[ str::to_lowercase ](s: &str) -> (r: String)
    ensures
        r@ == lowercase(s@),
;

/// What `char::is_whitespace` says of `c`.
pub uninterp spec fn white_space(c: char) -> bool;

/// `char::is_whitespace` tells whether the character has the property
/// `White_Space`. Nothing is claimed of it but that it is a function of the
/// character.
pub assume_specification[ char::is_whitespace ](c: char) -> (r: bool)
    ensures
        r == white_space(c),
;

/// `text` without the white space at its start and at its end.
pub open spec fn trimmed(text: Seq<char>) -> Seq<char>
    decreases text.len(),
{
    if text.len() == 0 {
        text
    } else if white_space(text.first()) {
        trimmed(text.drop_first())
    } else if white_space(text.last()) {
        trimmed(text.drop_last())
    } else {
        text
    }
}

/// Trimming a text that begins with white space up to `from` is trimming
/// what follows `from`.
proof fn lemma_trimmed_front(text: Seq<char>, from: int)
    requires
        0 <= from <= text.len(),
        forall|k: int| 0 <= k < from ==> white_space(#[trigger] text[k]),
    ensures
        trimmed(text) == trimmed(text.subrange(from, text.len() as int)),
    decreases from,
{
    if from == 0 {
        assert(text.subrange(0, text.len() as int) =~= text);
    } else {
        let rest = text.drop_first();
        assert(white_space(text[0]));
        assert forall|k: int| 0 <= k < from - 1 implies white_space(#[trigger] rest[k]) by {
            assert(rest[k] == text[k + 1]);
        }
        lemma_trimmed_front(rest, from - 1);
        assert(rest.subrange(from - 1, rest.len() as int) =~= text.subrange(
            from,
            text.len() as int,
        ));
    }
}

/// Trimming a text that begins with something else than white space and
/// ends with white space from `to` on is taking what stands before `to`.
proof fn lemma_trimmed_back(text: Seq<char>, to: int)
    requires
        0 < to <= text.len(),
        !white_space(text[0]),
        !white_space(text[to - 1]),
        forall|k: int| to <= k < text.len() ==> white_space(#[trigger] text[k]),
    ensures
        trimmed(text) == text.subrange(0, to),
    decreases text.len() - to,
{
    if to == text.len() {
        assert(text.subrange(0, to) =~= text);
    } else {
        let rest = text.drop_last();
        assert(white_space(text[text.len() - 1]));
        lemma_trimmed_back(rest, to);
        assert(rest.subrange(0, to) =~= text.subrange(0, to));
    }
}

/// `text` without the white space at its start and at its end.
pub fn trim(text: &Vec<char>) -> (r: Vec<char>)
    ensures
        r@ == trimmed(text@),
{
    let mut from: usize = 0;
    while from < text.len() && text[from].is_whitespace()
        invariant
            from <= text.len(),
            forall|k: int| 0 <= k < from ==> white_space(#[trigger] text[k]),
        decreases text.len() - from,
    {
        from += 1;
    }
    let mut to: usize = text.len();
    while to > from && text[to - 1].is_whitespace()
        invariant
            from <= to <= text.len(),
            forall|k: int| to <= k < text.len() ==> white_space(#[trigger] text[k]),
        decreases to,
    {
        to -= 1;
    }
    let mut r: Vec<char> = Vec::new();
    let mut i: usize = from;
    while i < to
        invariant
            from <= i <= to <= text.len(),
            r@ == text@.subrange(from as int, i as int),
        decreases to - i,
    {
        r.push(text[i]);
        assert(r@ =~= text@.subrange(from as int, i + 1));
        i += 1;
    }
    proof {
        let rest = text@.subrange(from as int, text.len() as int);
        lemma_trimmed_front(text@, from as int);
        if from == to {
            assert forall|k: int| 0 <= k < rest.len() implies white_space(#[trigger] rest[k]) by {
                assert(rest[k] == text[from + k]);
            }
            lemma_trimmed_front(rest, rest.len() as int);
            assert(rest.subrange(rest.len() as int, rest.len() as int) =~= Seq::<char>::empty());
            assert(r@ =~= Seq::<char>::empty());
        } else {
            assert(rest[0] == text[from as int]);
            assert(rest[to - from - 1] == text[to - 1]);
            assert forall|k: int| to - from <= k < rest.len() implies white_space(
                #[trigger] rest[k],
            ) by {
                assert(rest[k] == text[from + k]);
            }
            lemma_trimmed_back(rest, to - from);
            assert(rest.subrange(0, to - from) =~= text@.subrange(from as int, to as int));
        }
    }
    r
}

} // verus!
