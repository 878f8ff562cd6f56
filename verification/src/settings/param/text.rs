//! Strings as sequences of characters: prefixes, slices and splitting.

use vstd::prelude::*;

verus! {

/// The pieces of `s` between occurrences of `sep`. There is always at least
/// one piece; a piece is empty where `s` starts or ends with `sep` or holds two
/// in a row.
pub open spec fn split(s: Seq<char>, sep: char) -> Seq<Seq<char>>
    decreases s.len(),
{
    if s.len() == 0 {
        seq![Seq::empty()]
    } else {
        let before = split(s.drop_last(), sep);
        if s.last() == sep {
            before.push(Seq::empty())
        } else {
            before.drop_last().push(before.last().push(s.last()))
        }
    }
}

/// The views of a list of string slices.
pub open spec fn views(parts: Seq<&str>) -> Seq<Seq<char>> {
    Seq::new(parts.len(), |i: int| parts[i]@)
}

/// The views of a list of strings.
pub open spec fn string_views(parts: Seq<String>) -> Seq<Seq<char>> {
    Seq::new(parts.len(), |i: int| parts[i]@)
}

/// The characters of `s`.
pub fn chars_of(s: &str) -> (v: Vec<char>)
    ensures
        v@ == s@,
{
    let mut v: Vec<char> = Vec::new();
    for c in it: s.chars()
        invariant
            v@ == s@.take(it.index() as int),
            it.seq() == s@,
    {
        v.push(c);
    }
    v
}

/// Whether `s` begins with `prefix`.
pub fn starts_with(s: &[char], prefix: &[char]) -> (b: bool)
    ensures
        b == prefix@.is_prefix_of(s@),
{
    if prefix.len() > s.len() {
        return false;
    }
    let mut i: usize = 0;
    while i < prefix.len()
        invariant
            i <= prefix.len() <= s.len(),
            forall|j: int| 0 <= j < i ==> prefix@[j] == s@[j],
        decreases prefix.len() - i,
    {
        if prefix[i] != s[i] {
            assert(!(prefix@ =~= s@.subrange(0, prefix@.len() as int))) by {
                assert(s@.subrange(0, prefix@.len() as int)[i as int] == s@[i as int]);
            }
            return false;
        }
        i = i + 1;
    }
    assert(prefix@ =~= s@.subrange(0, prefix@.len() as int));
    true
}

/// The pieces of `s` between occurrences of `sep`, as slices of `s`.
pub fn split_on<'a>(s: &'a str, sep: char) -> (parts: Vec<&'a str>)
    ensures
        views(parts@) == split(s@, sep),
{
    let cs = chars_of(s);
    let n = cs.len();
    let mut parts: Vec<&'a str> = Vec::new();
    let mut start: usize = 0;
    let mut i: usize = 0;
    assert(s@.take(0) =~= Seq::<char>::empty());
    assert(views(parts@).push(s@.subrange(0, 0)) =~= seq![Seq::<char>::empty()]);
    while i < n
        invariant
            start <= i <= n,
            n == s@.len(),
            cs@ == s@,
            views(parts@).push(s@.subrange(start as int, i as int)) == split(s@.take(i as int), sep),
        decreases n - i,
    {
        let ghost before = split(s@.take(i as int), sep);
        assert(s@.take(i + 1).drop_last() =~= s@.take(i as int));
        assert(s@.take(i + 1).last() == s@[i as int]);
        if cs[i] == sep {
            parts.push(s.substring_char(start, i));
            start = i + 1;
            assert(views(parts@) =~= before);
            assert(s@.subrange(start as int, i + 1) =~= Seq::<char>::empty());
        } else {
            assert(before.drop_last() =~= views(parts@));
            assert(before.last().push(s@[i as int]) =~= s@.subrange(start as int, i + 1));
        }
        i = i + 1;
    }
    assert(s@.take(n as int) =~= s@);
    let ghost old_parts = parts@;
    parts.push(s.substring_char(start, n));
    assert(views(parts@) =~= views(old_parts).push(s@.subrange(start as int, n as int)));
    parts
}

/// `n` spaces.
pub open spec fn spaces(n: nat) -> Seq<char> {
    Seq::new(n, |i: int| ' ')
}

/// `s`, filled up with spaces to `width` characters where it is shorter.
pub open spec fn padded(s: Seq<char>, width: nat) -> Seq<char> {
    if s.len() < width {
        s + spaces((width - s.len()) as nat)
    } else {
        s
    }
}

/// Fills `out` up with spaces to `width` characters where it is shorter.
pub fn pad(out: &mut String, width: usize)
    ensures
        final(out)@ == padded(old(out)@, width as nat),
{
    let mut len = out.as_str().unicode_len();
    let ghost start = len;
    proof {
        reveal_strlit(" ");
    }
    assert(out@ =~= old(out)@ + spaces(0));
    while len < width
        invariant
            start <= len,
            start == old(out)@.len(),
            len <= width || len == start,
            " "@ == seq![' '],
            out@ == old(out)@ + spaces((len - start) as nat),
        decreases width - len,
    {
        out.append(" ");
        len = len + 1;
        assert(out@ =~= old(out)@ + spaces((len - start) as nat));
    }
    assert(old(out)@ + spaces(0) =~= old(out)@);
}

} // verus!
