//! Text helpers shared by the cards and the command interpreter.

use vstd::prelude::*;

verus! {

/// The character that stands for a hidden character in a hint.
pub const MASK: char = '_';

/// The hint for an answer: its first half, by characters, followed by one
/// mask per remaining character.
pub open spec fn hinted(s: Seq<char>) -> Seq<char> {
    Seq::new(s.len(), |i: int| if i < s.len() / 2 { s[i] } else { MASK })
}

/// Reveals the first half of `s` and masks the rest, character by character.
pub fn hint(s: &str) -> (r: String)
    ensures
        r@ == hinted(s@),
        r@.len() == s@.len(),
        forall|i: int| 0 <= i < s@.len() / 2 ==> r@[i] == s@[i],
        forall|i: int| s@.len() / 2 <= i < s@.len() ==> r@[i] == MASK,
{
    let len: usize = s.unicode_len();
    let shown: usize = len / 2;
    let mut r = String::from_str(s.substring_char(0, shown));
    let mut i: usize = shown;
    while i < len
        invariant
            shown == len / 2,
            len == s@.len(),
            shown <= i <= len,
            r@.len() == i,
            forall|k: int| 0 <= k < shown ==> r@[k] == s@[k],
            forall|k: int| shown <= k < i ==> r@[k] == MASK,
        decreases len - i,
    {
        proof {
            reveal_strlit("_");
        }
        r.append("_");
        i += 1;
    }
    assert(r@ =~= hinted(s@));
    r
}

/// `str`'s `==`: two string slices are equal exactly when they hold the same
/// characters in the same order.
pub assume_specification[ <str as PartialEq>::eq ](a: &str, b: &str) -> (r: bool)
    ensures
        r == (a@ == b@),
;

/// `String::push`: appends one character.
pub assume_specification[ String::push ](s: &mut String, c: char)
    ensures
        final(s)@ == old(s)@.push(c),
;

/// The characters of `s`, in order.
pub fn chars_of(s: &str) -> (v: Vec<char>)
    ensures
        v@ == s@,
{
    let mut v: Vec<char> = Vec::new();
    for c in it: s.chars()
        invariant
            it.seq() == s@,
            v@ == s@.take(it.index() as int),
    {
        v.push(c);
    }
    assert(v@ =~= s@);
    v
}

/// The text made of the characters `from..to` of `v`.
pub fn text_of(v: &Vec<char>, from: usize, to: usize) -> (s: String)
    requires
        from <= to <= v@.len(),
    ensures
        s@ == v@.subrange(from as int, to as int),
{
    let mut s = String::new();
    let mut i: usize = from;
    while i < to
        invariant
            from <= i <= to <= v@.len(),
            s@ == v@.subrange(from as int, i as int),
        decreases to - i,
    {
        s.push(v[i]);
        i += 1;
        assert(s@ =~= v@.subrange(from as int, i as int));
    }
    s
}

/// Whether `c` is white space: one of the twenty-five characters that
/// Unicode marks as such.
pub open spec fn is_space(c: char) -> bool {
    ||| '\u{9}' <= c <= '\u{d}'
    ||| c == ' '
    ||| c == '\u{85}'
    ||| c == '\u{a0}'
    ||| c == '\u{1680}'
    ||| '\u{2000}' <= c <= '\u{200a}'
    ||| c == '\u{2028}'
    ||| c == '\u{2029}'
    ||| c == '\u{202f}'
    ||| c == '\u{205f}'
    ||| c == '\u{3000}'
}

/// Tests a character for white space.
pub fn space(c: char) -> (r: bool)
    ensures
        r == is_space(c),
{
    ('\u{9}' <= c && c <= '\u{d}') || c == ' ' || c == '\u{85}' || c == '\u{a0}' || c
        == '\u{1680}' || ('\u{2000}' <= c && c <= '\u{200a}') || c == '\u{2028}' || c
        == '\u{2029}' || c == '\u{202f}' || c == '\u{205f}' || c == '\u{3000}'
}

/// `s` without the white space it begins with.
pub open spec fn trim_start(s: Seq<char>) -> Seq<char>
    decreases s.len(),
{
    if s.len() > 0 && is_space(s.first()) {
        trim_start(s.drop_first())
    } else {
        s
    }
}

/// `s` without the white space it ends with.
pub open spec fn trim_end(s: Seq<char>) -> Seq<char>
    decreases s.len(),
{
    if s.len() > 0 && is_space(s.last()) {
        trim_end(s.drop_last())
    } else {
        s
    }
}

/// `s` without the white space around it.
pub open spec fn trimmed(s: Seq<char>) -> Seq<char> {
    trim_end(trim_start(s))
}

/// The bounds of the trimmed part of `v[from..to]`: the characters between
/// the bounds are `trimmed(v[from..to])`, and only white space was left out.
pub fn trim_bounds(v: &Vec<char>, from: usize, to: usize) -> (bounds: (usize, usize))
    requires
        from <= to <= v@.len(),
    ensures
        from <= bounds.0 <= bounds.1 <= to,
        v@.subrange(bounds.0 as int, bounds.1 as int) == trimmed(
            v@.subrange(from as int, to as int),
        ),
        forall|i: int| from <= i < bounds.0 ==> is_space(v@[i]),
        forall|i: int| bounds.1 <= i < to ==> is_space(v@[i]),
        bounds.0 < bounds.1 ==> !is_space(v@[bounds.0 as int]) && !is_space(v@[bounds.1 - 1]),
{
    let mut lo: usize = from;
    while lo < to && space(v[lo])
        invariant
            from <= lo <= to <= v@.len(),
            trim_start(v@.subrange(from as int, to as int)) == trim_start(
                v@.subrange(lo as int, to as int),
            ),
            forall|i: int| from <= i < lo ==> is_space(v@[i]),
        decreases to - lo,
    {
        assert(v@.subrange(lo as int, to as int).drop_first() =~= v@.subrange(lo + 1, to as int));
        lo += 1;
    }
    let ghost rest = v@.subrange(lo as int, to as int);
    assert(trim_start(v@.subrange(from as int, to as int)) == rest);
    let mut hi: usize = to;
    while hi > lo && space(v[hi - 1])
        invariant
            lo <= hi <= to <= v@.len(),
            rest == v@.subrange(lo as int, to as int),
            trim_end(rest) == trim_end(v@.subrange(lo as int, hi as int)),
            forall|i: int| hi <= i < to ==> is_space(v@[i]),
            lo < to ==> !is_space(v@[lo as int]),
        decreases hi,
    {
        assert(v@.subrange(lo as int, hi as int).drop_last() =~= v@.subrange(lo as int, hi - 1));
        hi -= 1;
    }
    (lo, hi)
}

/// Removes the white space around `s`.
pub fn trim(s: &str) -> (t: &str)
    ensures
        t@ == trimmed(s@),
{
    let v = chars_of(s);
    let (from, to) = trim_bounds(&v, 0, v.len());
    assert(v@.subrange(0, v@.len() as int) =~= v@);
    s.substring_char(from, to)
}

} // verus!
