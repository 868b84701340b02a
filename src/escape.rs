//! Neutralises the characters that table markup reads as structure: every
//! `|`, `{` and `}` in a field gets a backslash in front of it.
use vstd::prelude::*;

verus! {

/// The characters of `s` in order, each one that lies in `marked` preceded
/// by a backslash.
pub open spec fn escaped_with(s: Seq<char>, marked: Set<char>) -> Seq<char>
    decreases s.len(),
{
    if s.len() == 0 {
        Seq::empty()
    } else if marked.contains(s.last()) {
        escaped_with(s.drop_last(), marked) + seq!['\\', s.last()]
    } else {
        escaped_with(s.drop_last(), marked).push(s.last())
    }
}

/// `s` with each pipe escaped.
pub open spec fn pipe_escaped(s: Seq<char>) -> Seq<char> {
    escaped_with(s, set!['|'])
}

/// `s` with each curly brace escaped.
pub open spec fn brackets_escaped(s: Seq<char>) -> Seq<char> {
    escaped_with(s, set!['{', '}'])
}

/// What a field is stored as: pipes escaped first, then braces.
pub open spec fn field_escaped(s: Seq<char>) -> Seq<char> {
    brackets_escaped(pipe_escaped(s))
}

/// Copies `s`, putting a backslash before each `first` and each `second`.
fn backslash_before(s: &str, first: char, second: char) -> (r: String)
    ensures
        r@ == escaped_with(s@, set![first, second]),
{
    let ghost marked = set![first, second];
    let mut out = String::new();
    let n = s.unicode_len();
    for i in 0..n
        invariant
            n == s@.len(),
            marked == set![first, second],
            out@ == escaped_with(s@.take(i as int), marked),
    {
        let c = s.get_char(i);
        let ghost prefix = s@.take(i + 1);
        assert(prefix.drop_last() =~= s@.take(i as int));
        assert(prefix.last() == c);
        assert(marked.contains(c) <==> (c == first || c == second));
        if c == first || c == second {
            out.push('\\');
        }
        out.push(c);
        assert(out@ =~= escaped_with(prefix, marked));
    }
    assert(s@.take(n as int) =~= s@);
    out
}

/// Escapes every `|` as `\|`.
pub fn escape_pipe(s: &str) -> (r: String)
    ensures
        r@ == pipe_escaped(s@),
{
    let r = backslash_before(s, '|', '|');
    assert(set!['|', '|'] =~= set!['|']);
    r
}

/// Escapes every `{` as `\{` and every `}` as `\}`.
pub fn escape_brackets(s: &str) -> (r: String)
    ensures
        r@ == brackets_escaped(s@),
{
    backslash_before(s, '{', '}')
}

/// Escapes a field for storage in a table: pipes, then braces.
pub fn escape_field(s: &str) -> (r: String)
    ensures
        r@ == field_escaped(s@),
{
    let piped = escape_pipe(s);
    escape_brackets(piped.as_str())
}

/// A field that holds none of `|`, `{` and `}` is stored as it is.
pub proof fn lemma_plain_field_unchanged(s: Seq<char>)
    requires
        forall|i: int| 0 <= i < s.len() ==> s[i] != '|' && s[i] != '{' && s[i] != '}',
    ensures
        field_escaped(s) == s,
{
    lemma_unmarked_unchanged(s, set!['|']);
    lemma_unmarked_unchanged(s, set!['{', '}']);
}

/// Escaping leaves a text alone when none of its characters is marked.
pub proof fn lemma_unmarked_unchanged(s: Seq<char>, marked: Set<char>)
    requires
        forall|i: int| 0 <= i < s.len() ==> !marked.contains(#[trigger] s[i]),
    ensures
        escaped_with(s, marked) == s,
    decreases s.len(),
{
    if s.len() > 0 {
        lemma_unmarked_unchanged(s.drop_last(), marked);
        assert(!marked.contains(s[s.len() - 1]));
        assert(s.drop_last().push(s.last()) =~= s);
    }
}

} // verus!
