//! Text as sequences of characters: searching, splitting and trimming.

use vstd::prelude::*;
use vstd::utf8::{decode_utf8, valid_utf8};

verus! {

/// `pat` stands in `s` at position `i`.
pub open spec fn occurs_at(s: Seq<char>, pat: Seq<char>, i: int) -> bool {
    &&& 0 <= i
    &&& i + pat.len() <= s.len()
    &&& s.subrange(i, i + pat.len()) == pat
}

/// `pat` stands somewhere in `s`.
pub open spec fn has_text(s: Seq<char>, pat: Seq<char>) -> bool {
    exists|i: int| occurs_at(s, pat, i)
}

/// `i` is the leftmost position at which `pat` stands in `s`.
pub open spec fn first_at(s: Seq<char>, pat: Seq<char>, i: int) -> bool {
    &&& occurs_at(s, pat, i)
    &&& forall|j: int| 0 <= j < i ==> !occurs_at(s, pat, j)
}

/// The pieces of `s` between the occurrences of `pat`, found from the left and
/// without overlap. There is always one piece more than there are separators.
pub open spec fn split(s: Seq<char>, pat: Seq<char>) -> Seq<Seq<char>>
    decreases s.len(),
    when pat.len() > 0
{
    if exists|i: int| first_at(s, pat, i) {
        let i = choose|i: int| first_at(s, pat, i);
        seq![s.take(i)] + split(s.skip(i + pat.len()), pat)
    } else {
        seq![s]
    }
}

/// The characters that trimming takes off both ends of a text.
#[derive(Clone, Copy, PartialEq, Eq, Structural)]
pub enum Strip {
    /// White space.
    White,
    /// Double quotes.
    Quotes,
}

/// The code points with Unicode's `White_Space` property.
pub open spec fn white_space(c: char) -> bool {
    let n = c as u32;
    ||| 0x9 <= n <= 0xD
    ||| n == 0x20
    ||| n == 0x85
    ||| n == 0xA0
    ||| n == 0x1680
    ||| 0x2000 <= n <= 0x200A
    ||| n == 0x2028
    ||| n == 0x2029
    ||| n == 0x202F
    ||| n == 0x205F
    ||| n == 0x3000
}

/// Whether trimming takes `c` off.
pub open spec fn strips(what: Strip, c: char) -> bool {
    match what {
        Strip::White => white_space(c),
        Strip::Quotes => c == '"',
    }
}

/// `s` without the characters of kind `what` at its two ends.
pub open spec fn trim(s: Seq<char>, what: Strip) -> Seq<char>
    decreases s.len(),
{
    if s.len() > 0 && strips(what, s.first()) {
        trim(s.drop_first(), what)
    } else if s.len() > 0 && strips(what, s.last()) {
        trim(s.drop_last(), what)
    } else {
        s
    }
}

/// The contents of a list of string slices.
pub open spec fn texts(v: Seq<&str>) -> Seq<Seq<char>> {
    v.map_values(|t: &str| t@)
}

/// Leftmost positions are unique.
pub proof fn lemma_first_unique(s: Seq<char>, pat: Seq<char>, i: int, j: int)
    requires
        first_at(s, pat, i),
        first_at(s, pat, j),
    ensures
        i == j,
{
}

/// A text that holds `pat` at all holds it at a leftmost position.
pub proof fn lemma_first_exists(s: Seq<char>, pat: Seq<char>, i: int)
    requires
        occurs_at(s, pat, i),
    ensures
        exists|k: int| first_at(s, pat, k) && k <= i,
    decreases i,
{
    if exists|j: int| 0 <= j < i && occurs_at(s, pat, j) {
        let j = choose|j: int| 0 <= j < i && occurs_at(s, pat, j);
        lemma_first_exists(s, pat, j);
    } else {
        assert(first_at(s, pat, i));
    }
}

/// Splitting takes the piece before the leftmost separator and goes on behind it.
pub proof fn lemma_split_at(s: Seq<char>, pat: Seq<char>, i: int)
    requires
        pat.len() > 0,
        first_at(s, pat, i),
    ensures
        split(s, pat) == seq![s.take(i)] + split(s.skip(i + pat.len()), pat),
{
    let k = choose|k: int| first_at(s, pat, k);
    lemma_first_unique(s, pat, i, k);
}

/// A text without the separator is its own single piece.
pub proof fn lemma_split_whole(s: Seq<char>, pat: Seq<char>)
    requires
        pat.len() > 0,
        !has_text(s, pat),
    ensures
        split(s, pat) == seq![s],
{
    assert forall|i: int| !first_at(s, pat, i) by {
        assert(!occurs_at(s, pat, i));
    }
}

/// Occurrences in a suffix are the occurrences in the whole, moved.
pub proof fn lemma_occurs_in_suffix(s: Seq<char>, pat: Seq<char>, start: int, j: int)
    requires
        0 <= start <= s.len(),
        0 <= j,
    ensures
        occurs_at(s.skip(start), pat, j) <==> occurs_at(s, pat, start + j),
{
    if start + j + pat.len() <= s.len() {
        assert(s.skip(start).subrange(j, j + pat.len()) =~= s.subrange(
            start + j,
            start + j + pat.len(),
        ));
    }
}

/// The characters of a string, in order.
pub fn chars_of(s: &str) -> (out: Vec<char>)
    ensures
        out@ == s@,
{
    let mut out: Vec<char> = Vec::new();
    for c in it: s.chars()
        invariant
            it.seq() == s@,
            out@ == s@.take(it.index() as int),
    {
        out.push(c);
        assert(out@ =~= s@.take(it.index() + 1));
    }
    assert(s@.take(s@.len() as int) =~= s@);
    out
}

/// Whether `pat` stands in `cs` at position `at`.
pub fn matches_at(cs: &Vec<char>, pat: &Vec<char>, at: usize) -> (found: bool)
    requires
        at + pat.len() <= cs.len(),
    ensures
        found == occurs_at(cs@, pat@, at as int),
        found == (cs@.subrange(at as int, at + pat@.len()) == pat@),
{
    let mut k: usize = 0;
    while k < pat.len()
        invariant
            k <= pat@.len(),
            at + pat.len() <= cs.len(),
            forall|j: int| 0 <= j < k ==> cs@[at + j] == pat@[j],
        decreases pat@.len() - k,
    {
        if cs[at + k] != pat[k] {
            assert(cs@.subrange(at as int, at + pat@.len())[k as int] != pat@[k as int]);
            return false;
        }
        k += 1;
    }
    assert(cs@.subrange(at as int, at + pat@.len()) =~= pat@);
    true
}

/// Cuts `s` at every occurrence of `pat`, from the left.
pub fn split_text<'a>(s: &'a str, pat: &str) -> (pieces: Vec<&'a str>)
    requires
        pat@.len() > 0,
    ensures
        texts(pieces@) == split(s@, pat@),
{
    let cs = chars_of(s);
    let ps = chars_of(pat);
    let mut pieces: Vec<&'a str> = Vec::new();
    let mut start: usize = 0;
    let mut i: usize = 0;
    assert(s@.skip(0) =~= s@);
    while i < cs.len() && ps.len() <= cs.len() - i
        invariant
            cs@ == s@,
            ps@ == pat@,
            pat@.len() > 0,
            start <= i <= cs@.len(),
            forall|j: int| start <= j < i ==> !occurs_at(s@, pat@, j),
            texts(pieces@) + split(s@.skip(start as int), pat@) == split(s@, pat@),
        decreases cs@.len() - i,
    {
        if matches_at(&cs, &ps, i) {
            let ghost rest = s@.skip(start as int);
            let ghost before = pieces@;
            proof {
                let n = i - start;
                lemma_occurs_in_suffix(s@, pat@, start as int, n);
                assert forall|j: int| 0 <= j < n implies !occurs_at(rest, pat@, j) by {
                    lemma_occurs_in_suffix(s@, pat@, start as int, j);
                }
                lemma_split_at(rest, pat@, n);
                assert(rest.take(n) =~= s@.subrange(start as int, i as int));
                assert(rest.skip(n + pat@.len()) =~= s@.skip(i + pat@.len()));
            }
            pieces.push(s.substring_char(start, i));
            i += ps.len();
            start = i;
            assert(texts(pieces@) =~= texts(before) + seq![rest.take(i - pat@.len() - (s@.len() - rest.len()))]);
            assert(texts(pieces@) + split(s@.skip(start as int), pat@) =~= texts(before) + split(rest, pat@));
        } else {
            i += 1;
        }
    }
    let ghost rest = s@.skip(start as int);
    let ghost before = pieces@;
    pieces.push(s.substring_char(start, cs.len()));
    proof {
        assert forall|j: int| !occurs_at(rest, pat@, j) by {
            if occurs_at(rest, pat@, j) {
                lemma_occurs_in_suffix(s@, pat@, start as int, j);
            }
        }
        lemma_split_whole(rest, pat@);
        assert(s@.subrange(start as int, s@.len() as int) =~= rest);
        assert(texts(pieces@) =~= texts(before) + seq![rest]);
    }
    pieces
}

/// Whether `c` is white space.
pub fn is_white_space(c: char) -> (white: bool)
    ensures
        white == white_space(c),
{
    let n: u32 = c as u32;
    (0x9 <= n && n <= 0xD) || n == 0x20 || n == 0x85 || n == 0xA0 || n == 0x1680 || (0x2000 <= n
        && n <= 0x200A) || n == 0x2028 || n == 0x2029 || n == 0x202F || n == 0x205F || n == 0x3000
}

fn is_stripped(what: Strip, c: char) -> (gone: bool)
    ensures
        gone == strips(what, c),
{
    match what {
        Strip::White => is_white_space(c),
        Strip::Quotes => c == '"',
    }
}

/// Takes the characters of kind `what` off both ends of `s`.
pub fn trim_text<'a>(s: &'a str, what: Strip) -> (core: &'a str)
    ensures
        core@ == trim(s@, what),
{
    let cs = chars_of(s);
    let mut from: usize = 0;
    let mut to: usize = cs.len();
    assert(s@.subrange(0, s@.len() as int) =~= s@);
    while from < to && is_stripped(what, cs[from])
        invariant
            cs@ == s@,
            from <= to <= cs@.len(),
            trim(s@, what) == trim(s@.subrange(from as int, to as int), what),
        decreases to - from,
    {
        assert(s@.subrange(from as int, to as int).drop_first() =~= s@.subrange(
            from + 1,
            to as int,
        ));
        from += 1;
    }
    while from < to && is_stripped(what, cs[to - 1])
        invariant
            cs@ == s@,
            from <= to <= cs@.len(),
            from < to ==> !strips(what, cs@[from as int]),
            trim(s@, what) == trim(s@.subrange(from as int, to as int), what),
        decreases to - from,
    {
        assert(s@.subrange(from as int, to as int).drop_last() =~= s@.subrange(
            from as int,
            to - 1,
        ));
        to -= 1;
    }
    s.substring_char(from, to)
}

/// Whether two strings hold the same characters.
pub fn same_text(a: &str, b: &str) -> (same: bool)
    ensures
        same == (a@ == b@),
{
    let x = chars_of(a);
    let y = chars_of(b);
    if x.len() != y.len() {
        return false;
    }
    let same = matches_at(&x, &y, 0);
    assert(x@.subrange(0, y@.len() as int) =~= x@);
    same
}

/// The leftmost position of `c` in `s`.
pub fn find_char(s: &Vec<char>, c: char) -> (at: Option<usize>)
    ensures
        match at {
            Some(i) => i < s.len() && first_at(s@, seq![c], i as int) && s@[i as int] == c,
            None => !has_text(s@, seq![c]) && !s@.contains(c),
        },
{
    let mut i: usize = 0;
    while i < s.len()
        invariant
            i <= s@.len(),
            forall|j: int| 0 <= j < i ==> !occurs_at(s@, seq![c], j),
            forall|j: int| 0 <= j < i ==> s@[j] != c,
        decreases s@.len() - i,
    {
        if s[i] == c {
            assert(s@.subrange(i as int, i + 1) =~= seq![c]);
            return Some(i);
        }
        assert(s@.subrange(i as int, i + 1)[0] != c);
        i += 1;
    }
    None
}

/// `String::from_utf8` of std gives the string that the bytes encode if they are
/// valid UTF-8, and an error otherwise.
#[verifier::external_body]
pub(crate) fn text_of_bytes(bytes: Vec<u8>) -> (text: Option<String>)
    ensures
        match text {
            Some(t) => valid_utf8(bytes@) && t@ == decode_utf8(bytes@),
            None => !valid_utf8(bytes@),
        },
{
    String::from_utf8(bytes).ok()
}

} // verus!
