//! Text helpers shared by the escaper and the renderer, each with the
//! sequence-of-characters model it builds.
use vstd::prelude::*;

verus! {

/// Relies on `String::push`: the character is appended at the end.
pub assume_specification[ String::push ](s: &mut String, ch: char)
    ensures
        final(s)@ == old(s)@.push(ch),
;

/// Relies on `String::pop`: the last character is removed and returned;
/// an empty string stays empty and gives `None`.
pub assume_specification[ String::pop ](s: &mut String) -> (r: Option<char>)
    ensures
        old(s)@.len() == 0 ==> r is None && final(s)@ == old(s)@,
        old(s)@.len() > 0 ==> r == Some(old(s)@.last()) && final(s)@ == old(s)@.drop_last(),
;

/// `n` copies of `c`.
pub open spec fn repeat(c: char, n: nat) -> Seq<char> {
    Seq::new(n, |_i: int| c)
}

/// `s` followed by as many spaces as bring it to `w` characters; `s` itself
/// when it is already that long.
pub open spec fn pad(s: Seq<char>, w: nat) -> Seq<char> {
    if s.len() < w {
        s + repeat(' ', (w - s.len()) as nat)
    } else {
        s
    }
}

/// The parts in order, with `sep` between each two neighbours.
pub open spec fn join(parts: Seq<Seq<char>>, sep: Seq<char>) -> Seq<char>
    decreases parts.len(),
{
    if parts.len() == 0 {
        Seq::empty()
    } else if parts.len() == 1 {
        parts[0]
    } else {
        join(parts.drop_last(), sep) + sep + parts.last()
    }
}

/// Joining one part more adds the separator and that part, except before
/// the first part.
pub proof fn lemma_join_push(parts: Seq<Seq<char>>, sep: Seq<char>, j: int)
    requires
        0 <= j < parts.len(),
    ensures
        join(parts.take(j + 1), sep) == if j == 0 {
            parts[0]
        } else {
            join(parts.take(j), sep) + sep + parts[j]
        },
{
    assert(parts.take(j + 1).drop_last() =~= parts.take(j));
}

/// Appends `n` copies of `c` to `out`.
pub(crate) fn push_repeat(out: &mut String, c: char, n: usize)
    ensures
        final(out)@ == old(out)@ + repeat(c, n as nat),
{
    let ghost start = out@;
    for i in 0..n
        invariant
            out@ == start + repeat(c, i as nat),
    {
        out.push(c);
        assert(out@ =~= start + repeat(c, (i + 1) as nat));
    }
    assert(out@ =~= start + repeat(c, n as nat));
}

/// Appends the characters of `s` to `out`.
pub(crate) fn push_text(out: &mut String, s: &str)
    ensures
        final(out)@ == old(out)@ + s@,
{
    out.append(s);
}

/// Appends `s` padded with trailing spaces to `w` characters.
pub(crate) fn push_padded(out: &mut String, s: &str, w: usize)
    ensures
        final(out)@ == old(out)@ + pad(s@, w as nat),
{
    let len = s.unicode_len();
    out.append(s);
    if len < w {
        push_repeat(out, ' ', w - len);
    }
    assert(out@ =~= old(out)@ + pad(s@, w as nat));
}

} // verus!
