//! What splitting, trimming and numbers come to.

use crate::number::{
    all_digits, decimal, is_digit, lemma_decimal_digits, lemma_decimal_value, parse_unsigned,
    value_of,
};
use crate::text::{
    first_at, lemma_first_exists, lemma_split_at, occurs_at, split, texts, trim, white_space,
    Strip,
};
use crate::text_map::{
    in_key_order, lemma_entry_in_map, lemma_precedes_irreflexive, map_of, precedes,
};
use vstd::prelude::*;

verus! {

/// Splitting loses nothing, cuts at the leftmost separator, and leaves none in a piece: a
/// text without the separator is its only piece, any other is its first piece, the
/// separator, and what the other pieces come from.
pub proof fn law_split(s: Seq<char>, pat: Seq<char>)
    requires
        pat.len() > 0,
    ensures
        ({
            let p = split(s, pat);
            let n = pat.len() as int;
            &&& p.len() > 0
            &&& forall|j: int|
                0 <= j < p[0].len() && j + n <= s.len() ==> #[trigger] s.subrange(j, j + n) != pat
            &&& if p.len() == 1 {
                &&& p[0] == s
                &&& forall|j: int|
                    0 <= j && j + n <= s.len() ==> #[trigger] s.subrange(j, j + n) != pat
            } else {
                &&& s == p[0] + pat + s.skip(p[0].len() + n)
                &&& split(s.skip(p[0].len() + n), pat) == p.drop_first()
            }
        }),
{
    let n = pat.len() as int;
    let p = split(s, pat);
    if exists|i: int| first_at(s, pat, i) {
        let i = choose|i: int| first_at(s, pat, i);
        let rest = s.skip(i + n);
        lemma_split_at(s, pat, i);
        lemma_pieces_some(rest, pat);
        assert(p[0] == s.take(i));
        assert(s =~= p[0] + pat + rest) by {
            assert(s.subrange(i, i + n) == pat);
        }
        assert(p.drop_first() =~= split(rest, pat));
        assert forall|j: int| 0 <= j < p[0].len() && j + n <= s.len() implies #[trigger] s.subrange(
            j,
            j + n,
        ) != pat by {
            assert(!occurs_at(s, pat, j));
        }
    } else {
        assert forall|j: int| 0 <= j && j + n <= s.len() implies #[trigger] s.subrange(j, j + n)
            != pat by {
            if s.subrange(j, j + n) == pat {
                assert(occurs_at(s, pat, j));
                lemma_first_exists(s, pat, j);
            }
        }
    }
}

proof fn lemma_pieces_some(s: Seq<char>, pat: Seq<char>)
    requires
        pat.len() > 0,
    ensures
        split(s, pat).len() > 0,
{
}

/// Pieces put together with the separator between each two.
pub open spec fn put_together(pieces: Seq<Seq<char>>, pat: Seq<char>) -> Seq<char>
    decreases pieces.len(),
{
    if pieces.len() == 0 {
        Seq::empty()
    } else if pieces.len() == 1 {
        pieces[0]
    } else {
        pieces[0] + pat + put_together(pieces.drop_first(), pat)
    }
}

/// The pieces of a text, put together again, are the text.
pub proof fn law_split_together(s: Seq<char>, pat: Seq<char>)
    requires
        pat.len() > 0,
    ensures
        put_together(split(s, pat), pat) == s,
    decreases s.len(),
{
    law_split(s, pat);
    let p = split(s, pat);
    if p.len() > 1 {
        law_split_together(s.skip((p[0].len() + pat.len()) as int), pat);
    }
}

/// Between `from` and `to` lies what is left of a text without white space at its ends.
pub open spec fn white_ends(s: Seq<char>, from: int, to: int) -> bool {
    &&& 0 <= from <= to <= s.len()
    &&& forall|i: int| 0 <= i < from ==> white_space(#[trigger] s[i])
    &&& forall|i: int| to <= i < s.len() ==> white_space(#[trigger] s[i])
    &&& from < to ==> !white_space(s[from]) && !white_space(s[to - 1])
}

/// Trimming takes white space off both ends and nothing else.
pub proof fn law_trim_white(s: Seq<char>) -> (ends: (int, int))
    ensures
        white_ends(s, ends.0, ends.1),
        trim(s, Strip::White) == s.subrange(ends.0, ends.1),
    decreases s.len(),
{
    if s.len() > 0 && white_space(s.first()) {
        let t = s.drop_first();
        let (a, b) = law_trim_white(t);
        assert(t.subrange(a, b) =~= s.subrange(a + 1, b + 1));
        assert forall|i: int| 0 <= i < a + 1 implies white_space(#[trigger] s[i]) by {
            if i > 0 {
                assert(t[i - 1] == s[i]);
            }
        }
        assert forall|i: int| b + 1 <= i < s.len() implies white_space(#[trigger] s[i]) by {
            assert(t[i - 1] == s[i]);
        }
        (a + 1, b + 1)
    } else if s.len() > 0 && white_space(s.last()) {
        let t = s.drop_last();
        let (a, b) = law_trim_white(t);
        assert(t.subrange(a, b) =~= s.subrange(a, b));
        assert forall|i: int| 0 <= i < a implies white_space(#[trigger] s[i]) by {
            assert(t[i] == s[i]);
        }
        assert forall|i: int| b <= i < s.len() implies white_space(#[trigger] s[i]) by {
            if i < t.len() {
                assert(t[i] == s[i]);
            }
        }
        (a, b)
    } else {
        assert(s.subrange(0, s.len() as int) =~= s);
        (0, s.len() as int)
    }
}

/// Between `from` and `to` lies what is left of a text without double quotes at its ends.
pub open spec fn quotes_ends(s: Seq<char>, from: int, to: int) -> bool {
    &&& 0 <= from <= to <= s.len()
    &&& forall|i: int| 0 <= i < from ==> #[trigger] s[i] == '"'
    &&& forall|i: int| to <= i < s.len() ==> #[trigger] s[i] == '"'
    &&& from < to ==> s[from] != '"' && s[to - 1] != '"'
}

/// Trimming takes double quotes off both ends and nothing else.
pub proof fn law_trim_quotes(s: Seq<char>) -> (ends: (int, int))
    ensures
        quotes_ends(s, ends.0, ends.1),
        trim(s, Strip::Quotes) == s.subrange(ends.0, ends.1),
    decreases s.len(),
{
    if s.len() > 0 && s.first() == '"' {
        let t = s.drop_first();
        let (a, b) = law_trim_quotes(t);
        assert(t.subrange(a, b) =~= s.subrange(a + 1, b + 1));
        assert forall|i: int| 0 <= i < a + 1 implies #[trigger] s[i] == '"' by {
            if i > 0 {
                assert(t[i - 1] == s[i]);
            }
        }
        assert forall|i: int| b + 1 <= i < s.len() implies #[trigger] s[i] == '"' by {
            assert(t[i - 1] == s[i]);
        }
        (a + 1, b + 1)
    } else if s.len() > 0 && s.last() == '"' {
        let t = s.drop_last();
        let (a, b) = law_trim_quotes(t);
        assert(t.subrange(a, b) =~= s.subrange(a, b));
        assert forall|i: int| 0 <= i < a implies #[trigger] s[i] == '"' by {
            assert(t[i] == s[i]);
        }
        assert forall|i: int| b <= i < s.len() implies #[trigger] s[i] == '"' by {
            if i < t.len() {
                assert(t[i] == s[i]);
            }
        }
        (a, b)
    } else {
        assert(s.subrange(0, s.len() as int) =~= s);
        (0, s.len() as int)
    }
}

/// Decimal notation: a number below ten is its digit, a greater one is the notation of
/// its tenth part and then its last digit.
pub proof fn law_decimal(n: nat)
    ensures
        n < 10 ==> decimal(n) == seq![(48 + n) as char],
        n >= 10 ==> decimal(n) == decimal(n / 10).push((48 + n % 10) as char),
{
}

/// Different numbers have different notations.
pub proof fn law_decimal_apart(a: nat, b: nat)
    requires
        decimal(a) == decimal(b),
    ensures
        a == b,
{
    lemma_decimal_value(a);
    lemma_decimal_value(b);
}

proof fn lemma_zeros(zeros: nat, digits: Seq<char>)
    requires
        all_digits(digits),
    ensures
        all_digits(Seq::new(zeros, |i: int| '0') + digits),
        value_of(Seq::new(zeros, |i: int| '0') + digits) == value_of(digits),
    decreases digits.len(), zeros,
{
    let z = Seq::new(zeros, |i: int| '0');
    let s = z + digits;
    assert(all_digits(s));
    if digits.len() > 0 {
        let front = digits.drop_last();
        assert(all_digits(front)) by {
            assert forall|i: int| 0 <= i < front.len() implies is_digit(#[trigger] front[i]) by {
                assert(is_digit(digits[i]));
            }
        }
        lemma_zeros(zeros, front);
        assert(s.drop_last() =~= z + front);
    } else if zeros > 0 {
        let fewer = Seq::new((zeros - 1) as nat, |i: int| '0');
        lemma_zeros((zeros - 1) as nat, digits);
        assert(s.drop_last() =~= fewer + digits);
        assert(value_of(digits) == 0);
    } else {
        assert(s =~= digits);
    }
}

/// A number is read from its decimal notation exactly if it is not too great, with or
/// without zeros in front of it, and with or without a plus sign in front of those.
pub proof fn law_numbers_read(n: nat, zeros: nat, plus: bool, max: nat)
    ensures
        ({
            let digits = Seq::new(zeros, |i: int| '0') + decimal(n);
            let s = if plus {
                seq!['+'] + digits
            } else {
                digits
            };
            parse_unsigned(s, max) == (if n <= max {
                Some(n)
            } else {
                None
            })
        }),
{
    let digits = Seq::new(zeros, |i: int| '0') + decimal(n);
    lemma_decimal_digits(n);
    lemma_decimal_value(n);
    lemma_zeros(zeros, decimal(n));
    assert(is_digit(digits[0]));
    assert((seq!['+'] + digits).drop_first() =~= digits);
}

/// Nothing but digits behind an optional plus sign is read as a number, and at least one
/// digit is needed.
pub proof fn law_no_number(s: Seq<char>, max: nat, i: int)
    requires
        s.len() == 0 || s == seq!['+'] || (0 <= i < s.len() && !('0' <= s[i] <= '9') && (i > 0
            || s[0] != '+')),
    ensures
        parse_unsigned(s, max) is None,
{
    if s.len() > 0 && s != seq!['+'] {
        if s.first() == '+' {
            assert(s.drop_first()[i - 1] == s[i]);
        }
    } else if s.len() > 0 {
        assert(s.drop_first().len() == 0);
    }
}

/// Text keys are ordered like words in a dictionary: by the first character in which they
/// differ, and a text before all that go on behind it.
pub proof fn law_dictionary(a: Seq<char>, b: Seq<char>, i: int)
    requires
        0 <= i <= a.len(),
        i < b.len(),
        forall|j: int| 0 <= j < i ==> a[j] == b[j],
        i < a.len() ==> a[i] != b[i],
    ensures
        precedes(a, b) <==> i == a.len() || a[i] < b[i],
        i == a.len() ==> !precedes(b, a),
    decreases i,
{
    if i > 0 {
        assert(a[0] == b[0]);
        law_dictionary(a.drop_first(), b.drop_first(), i - 1);
    }
}

/// A table of ordered entries holds under each key the value of its entry, and nothing
/// else.
pub proof fn law_entries<V>(entries: Seq<(String, V)>)
    requires
        in_key_order(entries),
    ensures
        forall|i: int|
            0 <= i < entries.len() ==> map_of(entries).contains_key(#[trigger] entries[i].0@)
                && map_of(entries)[entries[i].0@] == entries[i].1,
        forall|key: Seq<char>| #[trigger]
            map_of(entries).contains_key(key) ==> exists|i: int|
                0 <= i < entries.len() && #[trigger] entries[i].0@ == key,
{
    assert forall|i: int| 0 <= i < entries.len() implies map_of(entries).contains_key(
        #[trigger] entries[i].0@,
    ) && map_of(entries)[entries[i].0@] == entries[i].1 by {
        lemma_entry_in_map(entries, i);
    }
}

/// White space: the blanks of ASCII are, and no other character of it.
pub proof fn law_white_space(c: char)
    requires
        (c as u32) < 0x80,
    ensures
        white_space(c) <==> c == ' ' || ('\t' <= c <= '\r'),
{
}

/// Ordered entries stand in the order of their keys.
pub proof fn law_key_order<V>(entries: Seq<(String, V)>, i: int, j: int)
    requires
        in_key_order(entries),
        0 <= i < j < entries.len(),
    ensures
        precedes(entries[i].0@, entries[j].0@),
        entries[i].0@ != entries[j].0@,
{
    assert(precedes(entries[i].0@, entries[j].0@));
    lemma_precedes_irreflexive(entries[i].0@);
}

/// The contents of a list of texts are those of each, in order.
pub proof fn law_texts(v: Seq<&str>)
    ensures
        texts(v).len() == v.len(),
        forall|i: int| 0 <= i < v.len() ==> #[trigger] texts(v)[i] == v[i]@,
{
}

} // verus!
