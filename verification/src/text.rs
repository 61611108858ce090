//! Pieces of text: joining, comparing and splitting them.

use crate::oid::digit_char;
use vstd::prelude::*;
use vstd::string::{StrSliceExecFns, StringExecFns};

verus! {

/// `a` followed by `b`.
pub fn join2(a: &str, b: &str) -> (r: String)
    ensures
        r@ == a@ + b@,
{
    let mut out: String = a.to_owned();
    out.append(b);
    out
}

/// `a`, `b` and `c` in a row.
pub fn join3(a: &str, b: &str, c: &str) -> (r: String)
    ensures
        r@ == a@ + b@ + c@,
{
    let mut out: String = a.to_owned();
    out.append(b);
    out.append(c);
    out
}

/// Whether two texts are the same.
pub fn same(a: &str, b: &str) -> (r: bool)
    ensures
        r == (a@ == b@),
{
    a.to_owned() == b.to_owned()
}

/// Whether `names` holds `name`.
pub fn holds(names: &Vec<String>, name: &String) -> (r: bool)
    ensures
        r == exists|i: int| 0 <= i < names@.len() && #[trigger] names@[i]@ == name@,
{
    let mut i: usize = 0;
    while i < names.len()
        invariant
            i <= names.len(),
            forall|j: int| 0 <= j < i ==> #[trigger] names@[j]@ != name@,
        decreases names.len() - i,
    {
        if names[i] == *name {
            return true;
        }
        i += 1;
    }
    false
}

/// The decimal digits of a number, without zeros in front.
pub open spec fn decimal_of(n: int) -> Seq<char>
    decreases n,
{
    if n < 10 {
        seq![digit_char(n)]
    } else {
        decimal_of(n / 10).push(digit_char(n % 10))
    }
}

fn digit(n: u128) -> (r: &'static str)
    requires
        n < 10,
    ensures
        r@ == seq![digit_char(n as int)],
{
    proof {
        reveal_strlit("0");
        reveal_strlit("1");
        reveal_strlit("2");
        reveal_strlit("3");
        reveal_strlit("4");
        reveal_strlit("5");
        reveal_strlit("6");
        reveal_strlit("7");
        reveal_strlit("8");
        reveal_strlit("9");
    }
    if n == 0 {
        "0"
    } else if n == 1 {
        "1"
    } else if n == 2 {
        "2"
    } else if n == 3 {
        "3"
    } else if n == 4 {
        "4"
    } else if n == 5 {
        "5"
    } else if n == 6 {
        "6"
    } else if n == 7 {
        "7"
    } else if n == 8 {
        "8"
    } else {
        "9"
    }
}

/// A number in decimal digits.
pub fn decimal(n: u128) -> (r: String)
    ensures
        r@ == decimal_of(n as int),
    decreases n,
{
    if n < 10 {
        digit(n).to_owned()
    } else {
        let rest: String = decimal(n / 10);
        join2(rest.as_str(), digit(n % 10))
    }
}

/// The texts of a list.
pub open spec fn texts(list: Seq<String>) -> Seq<Seq<char>> {
    Seq::new(list.len(), |i: int| list[i]@)
}

/// The pieces of `text` between the occurrences of `separator`: one more than
/// there are occurrences.
pub open spec fn pieces(text: Seq<char>, separator: char) -> Seq<Seq<char>>
    decreases text.len(),
{
    if text.len() == 0 {
        seq![Seq::empty()]
    } else {
        let before = pieces(text.drop_last(), separator);
        if text.last() == separator {
            before.push(Seq::empty())
        } else {
            before.update(before.len() - 1, before.last().push(text.last()))
        }
    }
}

/// Cuts `text` at every occurrence of `separator`.
pub fn split(text: &str, separator: char) -> (r: Vec<String>)
    ensures
        texts(r@) == pieces(text@, separator),
{
    let len: usize = text.unicode_len();
    let mut done: Vec<String> = Vec::new();
    let mut start: usize = 0;
    let mut i: usize = 0;
    assert(text@.take(0) == Seq::<char>::empty());
    assert(texts(done@).push(text@.subrange(0, 0)) == pieces(text@.take(0), separator));
    while i < len
        invariant
            start <= i <= len,
            len == text@.len(),
            pieces(text@.take(i as int), separator) == texts(done@).push(
                text@.subrange(start as int, i as int),
            ),
        decreases len - i,
    {
        let ghost before = done@;
        assert(text@.take(i + 1).drop_last() == text@.take(i as int));
        if text.get_char(i) == separator {
            done.push(text.substring_char(start, i).to_owned());
            assert(texts(done@) == texts(before).push(text@.subrange(start as int, i as int)));
            start = i + 1;
            assert(text@.subrange(start as int, i + 1) == Seq::<char>::empty());
        } else {
            assert(text@.subrange(start as int, i + 1) == text@.subrange(
                start as int,
                i as int,
            ).push(text@[i as int]));
            assert(texts(done@).push(text@.subrange(start as int, i + 1)) == pieces(
                text@.take(i + 1),
                separator,
            ));
        }
        i += 1;
    }
    let ghost before = done@;
    done.push(text.substring_char(start, len).to_owned());
    assert(texts(done@) == texts(before).push(text@.subrange(start as int, len as int)));
    assert(text@.take(len as int) == text@);
    done
}

/// The pieces of a text with the separators put back between them.
pub open spec fn joined(parts: Seq<Seq<char>>, separator: char) -> Seq<char>
    decreases parts.len(),
{
    if parts.len() == 0 {
        Seq::empty()
    } else if parts.len() == 1 {
        parts[0]
    } else {
        joined(parts.drop_last(), separator).push(separator) + parts.last()
    }
}

/// Cutting a text loses nothing: there is at least one piece, no piece holds the
/// separator, and the pieces with the separators put back are the text.
pub proof fn pieces_join_back(text: Seq<char>, separator: char)
    ensures
        pieces(text, separator).len() >= 1,
        forall|i: int| 0 <= i < pieces(text, separator).len() ==> !(#[trigger] pieces(
            text,
            separator,
        )[i]).contains(separator),
        joined(pieces(text, separator), separator) == text,
    decreases text.len(),
{
    let all = pieces(text, separator);
    if text.len() > 0 {
        let before = pieces(text.drop_last(), separator);
        pieces_join_back(text.drop_last(), separator);
        assert(text == text.drop_last().push(text.last()));
        if text.last() == separator {
            assert(all.drop_last() == before);
        } else {
            assert(all.drop_last() == before.drop_last());
            assert forall|i: int| 0 <= i < all.len() implies !(#[trigger] all[i]).contains(
                separator,
            ) by {
                assert(!before[i].contains(separator));
                if i == all.len() - 1 {
                    assert forall|j: int| 0 <= j < all[i].len() implies all[i][j] != separator by {
                        if j < before[i].len() {
                            assert(before[i].contains(before[i][j]));
                        }
                    }
                }
            }
        }
        assert(joined(all, separator) == text);
    }
}

proof fn lemma_pieces_after(before: Seq<char>, part: Seq<char>, separator: char)
    requires
        !part.contains(separator),
    ensures
        pieces(before.push(separator) + part, separator) == pieces(before, separator).push(part),
    decreases part.len(),
{
    let text = before.push(separator) + part;
    if part.len() == 0 {
        assert(part == Seq::<char>::empty());
        assert(text == before.push(separator));
        assert(text.drop_last() == before);
    } else {
        let rest = part.drop_last();
        assert(!rest.contains(separator)) by {
            if rest.contains(separator) {
                let i = choose|i: int| 0 <= i < rest.len() && rest[i] == separator;
                assert(part[i] == separator);
            }
        }
        assert(part.contains(part.last()));
        lemma_pieces_after(before, rest, separator);
        assert(text.drop_last() == before.push(separator) + rest);
        assert(rest.push(part.last()) == part);
        let all = pieces(before, separator).push(rest);
        assert(text.last() == part.last());
        assert(all.last().push(text.last()) == part);
        assert(all.update(all.len() - 1, part) == pieces(before, separator).push(part));
    }
}

proof fn lemma_one_piece(part: Seq<char>, separator: char)
    requires
        !part.contains(separator),
    ensures
        pieces(part, separator) == seq![part],
    decreases part.len(),
{
    if part.len() > 0 {
        let rest = part.drop_last();
        assert(!rest.contains(separator)) by {
            if rest.contains(separator) {
                let i = choose|i: int| 0 <= i < rest.len() && rest[i] == separator;
                assert(part[i] == separator);
            }
        }
        assert(part.contains(part.last()));
        lemma_one_piece(rest, separator);
        assert(rest.push(part.last()) == part);
        assert(seq![rest].last() == rest);
        assert(seq![rest].update(0, part) == seq![part]);
    } else {
        assert(part == Seq::<char>::empty());
    }
}

/// Pieces that are put together with separators between them are found again by
/// cutting, if there is one at least and none holds the separator.
pub proof fn joined_pieces_are_found(parts: Seq<Seq<char>>, separator: char)
    requires
        parts.len() > 0,
        forall|i: int| 0 <= i < parts.len() ==> !(#[trigger] parts[i]).contains(separator),
    ensures
        pieces(joined(parts, separator), separator) == parts,
    decreases parts.len(),
{
    if parts.len() == 1 {
        lemma_one_piece(parts[0], separator);
        assert(seq![parts[0]] == parts);
    } else {
        let rest = parts.drop_last();
        assert forall|i: int| 0 <= i < rest.len() implies !(#[trigger] rest[i]).contains(
            separator,
        ) by {
            assert(rest[i] == parts[i]);
        }
        joined_pieces_are_found(rest, separator);
        assert(!parts[parts.len() - 1].contains(separator));
        lemma_pieces_after(joined(rest, separator), parts.last(), separator);
        assert(rest.push(parts.last()) == parts);
    }
}

/// A text without the separator is one piece, and two texts with the separator
/// between them have the pieces of the first, then those of the second.
pub proof fn texts_are_cut_one_by_one(first: Seq<char>, second: Seq<char>, separator: char)
    ensures
        !first.contains(separator) ==> pieces(first, separator) == seq![first],
        pieces(first.push(separator) + second, separator) == pieces(first, separator) + pieces(
            second,
            separator,
        ),
    decreases second.len(),
{
    if !first.contains(separator) {
        lemma_one_piece(first, separator);
    }
    let text = first.push(separator) + second;
    let before = pieces(first, separator);
    if second.len() == 0 {
        assert(text == first.push(separator));
        assert(text.drop_last() == first);
        assert(before.push(Seq::<char>::empty()) == before + seq![Seq::<char>::empty()]);
    } else {
        let rest = second.drop_last();
        texts_are_cut_one_by_one(first, rest, separator);
        pieces_join_back(rest, separator);
        assert(text.drop_last() == first.push(separator) + rest);
        assert(text.last() == second.last());
        let tail = pieces(rest, separator);
        if second.last() == separator {
            assert((before + tail).push(Seq::<char>::empty()) == before + tail.push(
                Seq::<char>::empty(),
            ));
        } else {
            let all = before + tail;
            let wider = tail.last().push(second.last());
            assert(all.last() == tail.last());
            assert(all.update(all.len() - 1, wider) == before + tail.update(tail.len() - 1, wider));
        }
    }
}

/// The value of decimal digits, the first one the most significant.
pub open spec fn decimal_value(digits: Seq<char>) -> int
    decreases digits.len(),
{
    if digits.len() == 0 {
        0
    } else {
        10 * decimal_value(digits.drop_last()) + (digits.last() as int - '0' as int)
    }
}

/// A number that is written in decimal digits has no digit in front that could be
/// left out, and is read back as the same number.
pub proof fn written_number_reads_back(n: int)
    requires
        0 <= n,
    ensures
        decimal_of(n).len() > 0,
        forall|i: int| 0 <= i < decimal_of(n).len() ==> '0' <= #[trigger] decimal_of(n)[i] <= '9',
        n > 0 ==> decimal_of(n)[0] != '0',
        decimal_value(decimal_of(n)) == n,
    decreases n,
{
    let digits = decimal_of(n);
    if n < 10 {
        assert(digits == seq![digit_char(n)]);
        assert(digits.drop_last() == Seq::<char>::empty());
        assert(decimal_value(Seq::<char>::empty()) == 0);
    } else {
        written_number_reads_back(n / 10);
        let rest = decimal_of(n / 10);
        assert(digits.drop_last() == rest);
        assert(digits.last() == digit_char(n % 10));
        assert forall|i: int| 0 <= i < digits.len() implies '0' <= #[trigger] digits[i] <= '9' by {
            if i < rest.len() {
                assert(digits[i] == rest[i]);
            }
        }
        assert(digits[0] == rest[0]);
    }
}

} // verus!
