//! Quoted strings: how they are written and read, and where text around them is cut.

use crate::text::{chars_of, texts, trim, trim_text, Strip};
use vstd::prelude::*;

verus! {

/// How a character stands inside a quoted string.
pub open spec fn escape_char(c: char) -> Seq<char> {
    if c == '\\' {
        seq!['\\', '\\']
    } else if c == '"' {
        seq!['\\', '"']
    } else {
        seq![c]
    }
}

/// A text with a backslash in front of each backslash and double quote.
pub open spec fn escape(v: Seq<char>) -> Seq<char>
    decreases v.len(),
{
    if v.len() == 0 {
        v
    } else {
        escape(v.drop_last()) + escape_char(v.last())
    }
}

/// A text without the backslashes that stand in front of a backslash or a double
/// quote.
pub open spec fn unescape(v: Seq<char>) -> Seq<char>
    decreases v.len(),
{
    if v.len() == 0 {
        v
    } else if v.len() >= 2 && v[0] == '\\' && (v[1] == '\\' || v[1] == '"') {
        seq![v[1]] + unescape(v.skip(2))
    } else {
        seq![v[0]] + unescape(v.skip(1))
    }
}

/// A backslash that is not itself escaped stands right before position `i`.
pub open spec fn escaped(s: Seq<char>, i: int) -> bool
    decreases i,
{
    0 < i <= s.len() && s[i - 1] == '\\' && !escaped(s, i - 1)
}

/// A double quote that is not escaped stands at position `i`.
pub open spec fn quote_at(s: Seq<char>, i: int) -> bool {
    0 <= i < s.len() && s[i] == '"' && !escaped(s, i)
}

/// Position `i` lies in a quoted string: a double quote before it has opened one, and
/// none has closed it.
pub open spec fn within_quotes(s: Seq<char>, i: int) -> bool
    decreases i,
{
    if i <= 0 {
        false
    } else {
        within_quotes(s, i - 1) != quote_at(s, i - 1)
    }
}

/// A comma outside quoted strings stands at position `i`.
pub open spec fn cut_at(s: Seq<char>, i: int) -> bool {
    0 <= i < s.len() && s[i] == ',' && !within_quotes(s, i)
}

/// `i` is the leftmost position of a comma outside quoted strings.
pub open spec fn first_cut(s: Seq<char>, i: int) -> bool {
    cut_at(s, i) && forall|j: int| 0 <= j < i ==> !cut_at(s, j)
}

/// The pieces of a text between the commas outside quoted strings.
pub open spec fn pieces(s: Seq<char>) -> Seq<Seq<char>>
    decreases s.len(),
{
    if exists|i: int| first_cut(s, i) {
        let i = choose|i: int| first_cut(s, i);
        seq![s.take(i)] + pieces(s.skip(i + 1))
    } else {
        seq![s]
    }
}

/// A text is one quoted string from end to end.
pub open spec fn quoted(t: Seq<char>) -> bool {
    &&& t.len() >= 2
    &&& quote_at(t, 0)
    &&& quote_at(t, t.len() - 1)
    &&& forall|i: int| 0 < i < t.len() - 1 ==> !quote_at(t, i)
}

/// A text is one quoted string, or has no double quote that opens one.
pub open spec fn well_quoted(t: Seq<char>) -> bool {
    quoted(t) || forall|i: int| !quote_at(t, i)
}

/// What a text stands for: a quoted string for what it quotes, anything else for
/// itself, without double quotes at its ends.
pub open spec fn unquote(t: Seq<char>) -> Seq<char> {
    if quoted(t) {
        unescape(t.subrange(1, t.len() - 1))
    } else {
        trim(t, Strip::Quotes)
    }
}

/// Cutting takes the piece before the leftmost cut and goes on behind it.
pub proof fn lemma_pieces_at(s: Seq<char>, i: int)
    requires
        first_cut(s, i),
    ensures
        pieces(s) == seq![s.take(i)] + pieces(s.skip(i + 1)),
{
    let k = choose|k: int| first_cut(s, k);
    assert(k == i);
}

/// A text without a cut is its own single piece.
pub proof fn lemma_pieces_whole(s: Seq<char>)
    requires
        forall|i: int| !cut_at(s, i),
    ensures
        pieces(s) == seq![s],
{
    assert forall|i: int| !first_cut(s, i) by {
        assert(!cut_at(s, i));
    }
}

/// Appends a text with its backslashes and double quotes escaped.
pub fn push_escaped(out: &mut String, v: &str)
    ensures
        final(out)@ == old(out)@ + escape(v@),
{
    let cs = chars_of(v);
    let mut i: usize = 0;
    assert(out@ =~= old(out)@ + escape(cs@.take(0)));
    while i < cs.len()
        invariant
            i <= cs@.len(),
            out@ == old(out)@ + escape(cs@.take(i as int)),
        decreases cs@.len() - i,
    {
        let c = cs[i];
        assert(cs@.take(i + 1).drop_last() =~= cs@.take(i as int));
        assert(cs@.take(i + 1).last() == c);
        if c == '\\' || c == '"' {
            out.push('\\');
        }
        out.push(c);
        assert(out@ =~= old(out)@ + escape(cs@.take(i + 1)));
        i += 1;
    }
    assert(cs@.take(cs@.len() as int) =~= cs@);
}

/// Cuts a text at the commas outside quoted strings.
pub fn cut_text<'a>(s: &'a str) -> (parts: Vec<&'a str>)
    ensures
        texts(parts@) == pieces(s@),
{
    let cs = chars_of(s);
    let mut parts: Vec<&'a str> = Vec::new();
    let mut start: usize = 0;
    let mut i: usize = 0;
    let mut inside = false;
    let mut after_backslash = false;
    assert(s@.skip(0) =~= s@);
    assert(texts(parts@) + pieces(s@) =~= pieces(s@));
    while i < cs.len()
        invariant
            cs@ == s@,
            start <= i <= cs.len(),
            pieces(s@) == texts(parts@) + pieces(s@.skip(start as int)),
            inside == within_quotes(s@.skip(start as int), i - start),
            after_backslash == escaped(s@.skip(start as int), i - start),
            forall|j: int| 0 <= j < i - start ==> !cut_at(s@.skip(start as int), j),
        decreases cs.len() - i,
    {
        let c = cs[i];
        let ghost rest = s@.skip(start as int);
        let ghost at = i - start;
        assert(rest[at] == c);
        if c == ',' && !inside {
            let ghost before = parts@;
            proof {
                assert(first_cut(rest, at));
                lemma_pieces_at(rest, at);
                assert(rest.take(at) =~= s@.subrange(start as int, i as int));
                assert(rest.skip(at + 1) =~= s@.skip(i + 1));
            }
            parts.push(s.substring_char(start, i));
            proof {
                assert(texts(parts@) =~= texts(before) + seq![rest.take(at)]);
                assert(pieces(s@) =~= texts(parts@) + pieces(s@.skip(i + 1)));
            }
            start = i + 1;
            after_backslash = false;
        } else {
            if c == '"' && !after_backslash {
                inside = !inside;
            }
            after_backslash = c == '\\' && !after_backslash;
        }
        i += 1;
    }
    let ghost before = parts@;
    let ghost rest = s@.skip(start as int);
    assert(rest =~= s@.subrange(start as int, s@.len() as int));
    parts.push(s.substring_char(start, cs.len()));
    proof {
        lemma_pieces_whole(rest);
        assert(texts(parts@) =~= texts(before) + seq![rest]);
    }
    parts
}

/// Whether a text is one quoted string from end to end.
fn is_quoted(cs: &Vec<char>) -> (yes: bool)
    ensures
        yes == quoted(cs@),
{
    let n: usize = cs.len();
    if n < 2 || cs[0] != '"' || cs[n - 1] != '"' {
        return false;
    }
    let mut i: usize = 1;
    let mut after_backslash = false;
    assert(quote_at(cs@, 0));
    while i < n - 1
        invariant
            n == cs.len(),
            1 <= i <= n - 1,
            after_backslash == escaped(cs@, i as int),
            forall|j: int| 0 < j < i ==> !quote_at(cs@, j),
        decreases n - i,
    {
        let c = cs[i];
        if c == '"' && !after_backslash {
            assert(quote_at(cs@, i as int));
            return false;
        }
        after_backslash = c == '\\' && !after_backslash;
        i += 1;
    }
    !after_backslash
}

/// Whether a text is one quoted string, or has no double quote that opens one.
pub fn is_well_quoted(t: &str) -> (yes: bool)
    ensures
        yes == well_quoted(t@),
{
    let cs = chars_of(t);
    if is_quoted(&cs) {
        return true;
    }
    let mut i: usize = 0;
    let mut after_backslash = false;
    while i < cs.len()
        invariant
            cs@ == t@,
            i <= cs.len(),
            !quoted(t@),
            after_backslash == escaped(cs@, i as int),
            forall|j: int| 0 <= j < i ==> !quote_at(cs@, j),
        decreases cs.len() - i,
    {
        let c = cs[i];
        if c == '"' && !after_backslash {
            assert(quote_at(cs@, i as int));
            return false;
        }
        after_backslash = c == '\\' && !after_backslash;
        i += 1;
    }
    true
}

/// What a text stands for.
pub fn unquote_text(t: &str) -> (value: String)
    ensures
        value@ == unquote(t@),
{
    let cs = chars_of(t);
    if !is_quoted(&cs) {
        return trim_text(t, Strip::Quotes).to_owned();
    }
    let n: usize = cs.len() - 1;
    let ghost inner = t@.subrange(1, n as int);
    let mut value = String::new();
    let mut i: usize = 1;
    assert(inner.skip(0) =~= inner);
    assert(value@ + unescape(inner) =~= unescape(inner));
    while i < n
        invariant
            cs@ == t@,
            n == cs.len() - 1,
            inner == t@.subrange(1, n as int),
            1 <= i <= n,
            unescape(inner) == value@ + unescape(inner.skip(i - 1)),
        decreases n - i,
    {
        let ghost rest = inner.skip(i - 1);
        let ghost before = value@;
        assert(rest[0] == cs[i as int]);
        if i + 1 < n && cs[i] == '\\' && (cs[i + 1] == '\\' || cs[i + 1] == '"') {
            assert(rest[1] == cs[i + 1]);
            assert(rest.skip(2) =~= inner.skip(i + 1));
            value.push(cs[i + 1]);
            assert(before + unescape(rest) =~= value@ + unescape(inner.skip(i + 1)));
            i += 2;
        } else {
            assert(rest.len() >= 2 ==> rest[1] == cs[i + 1]);
            assert(rest.skip(1) =~= inner.skip(i as int));
            value.push(cs[i]);
            assert(before + unescape(rest) =~= value@ + unescape(inner.skip(i as int)));
            i += 1;
        }
    }
    assert(inner.skip(n - 1).len() == 0);
    assert(value@ =~= unescape(inner));
    value
}

} // verus!
