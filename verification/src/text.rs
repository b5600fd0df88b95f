//! Splitting text and reading octets.

use crate::error::OctetError;
use vstd::prelude::*;

verus! {

/// The pieces of `text` between the occurrences of `separator`; one more than
/// there are occurrences.
pub open spec fn split(text: Seq<char>, separator: char) -> Seq<Seq<char>>
    decreases text.len(),
{
    if text.len() == 0 {
        seq![Seq::<char>::empty()]
    } else {
        let front = split(text.drop_last(), separator);
        if text.last() == separator {
            front.push(Seq::empty())
        } else {
            front.drop_last().push(front.last().push(text.last()))
        }
    }
}

/// The pieces with `separator` between them.
pub open spec fn join(pieces: Seq<Seq<char>>, separator: char) -> Seq<char>
    decreases pieces.len(),
{
    if pieces.len() == 0 {
        Seq::empty()
    } else if pieces.len() == 1 {
        pieces[0]
    } else {
        join(pieces.drop_last(), separator).push(separator) + pieces.last()
    }
}

/// Splitting loses nothing: the pieces joined again are the text, and no piece
/// holds the separator.
pub proof fn law_split_then_join(text: Seq<char>, separator: char)
    ensures
        join(split(text, separator), separator) == text,
        split(text, separator).len() >= 1,
        forall|i: int|
            0 <= i < split(text, separator).len() ==> !(#[trigger] split(
                text,
                separator,
            )[i]).contains(separator),
    decreases text.len(),
{
    let pieces = split(text, separator);
    if text.len() > 0 {
        let front = split(text.drop_last(), separator);
        law_split_then_join(text.drop_last(), separator);
        if text.last() == separator {
            assert(pieces.drop_last() =~= front);
            assert(join(pieces, separator) =~= text);
        } else {
            let last = front.last().push(text.last());
            assert(pieces.drop_last() =~= front.drop_last());
            assert(join(pieces, separator) =~= join(front, separator).push(text.last()));
            assert(text.drop_last().push(text.last()) =~= text);
            assert(!front[front.len() - 1].contains(separator));
            assert(!last.contains(separator)) by {
                if last.contains(separator) {
                    let k = choose|k: int| 0 <= k < last.len() && last[k] == separator;
                    assert(front.last()[k] == separator);
                }
            }
            assert forall|i: int| 0 <= i < pieces.len() implies !(
            #[trigger] pieces[i]).contains(separator) by {
                if i < pieces.len() - 1 {
                    assert(pieces[i] == front[i]);
                }
            }
        }
    }
}

/// Text without the separator after a separator is a piece of its own, and the pieces
/// before it are those of the text before that separator.
pub proof fn law_last_piece(text: Seq<char>, separator: char, piece: Seq<char>)
    requires
        !piece.contains(separator),
    ensures
        split(text.push(separator) + piece, separator) == split(text, separator).push(piece),
    decreases piece.len(),
{
    let whole = text.push(separator) + piece;
    if piece.len() == 0 {
        assert(whole =~= text.push(separator));
        assert(whole.drop_last() =~= text);
        assert(piece =~= Seq::<char>::empty());
    } else {
        let front = piece.drop_last();
        assert(!front.contains(separator)) by {
            if front.contains(separator) {
                let k = choose|k: int| 0 <= k < front.len() && front[k] == separator;
                assert(piece[k] == separator);
            }
        }
        law_last_piece(text, separator, front);
        assert(piece.contains(piece[piece.len() - 1]));
        assert(whole.drop_last() =~= text.push(separator) + front);
        assert(front.push(piece.last()) =~= piece);
        assert(split(text, separator).push(front).drop_last() =~= split(text, separator));
    }
}

/// Joining loses nothing: pieces without the separator come back when the joined
/// text is split.
pub proof fn law_join_then_split(pieces: Seq<Seq<char>>, separator: char)
    requires
        pieces.len() >= 1,
        forall|i: int| 0 <= i < pieces.len() ==> !(#[trigger] pieces[i]).contains(separator),
    ensures
        split(join(pieces, separator), separator) == pieces,
    decreases pieces.len(),
{
    if pieces.len() == 1 {
        let piece = pieces[0];
        law_only_piece(piece, separator);
        assert(seq![piece] =~= pieces);
    } else {
        let front = pieces.drop_last();
        law_join_then_split(front, separator);
        law_last_piece(join(front, separator), separator, pieces.last());
        assert(front.push(pieces.last()) =~= pieces);
    }
}

/// Text without the separator is one piece.
pub proof fn law_only_piece(piece: Seq<char>, separator: char)
    requires
        !piece.contains(separator),
    ensures
        split(piece, separator) == seq![piece],
    decreases piece.len(),
{
    if piece.len() == 0 {
        assert(piece =~= Seq::<char>::empty());
    } else {
        let front = piece.drop_last();
        assert(!front.contains(separator)) by {
            if front.contains(separator) {
                let k = choose|k: int| 0 <= k < front.len() && front[k] == separator;
                assert(piece[k] == separator);
            }
        }
        law_only_piece(front, separator);
        assert(piece.contains(piece[piece.len() - 1]));
        assert(front.push(piece.last()) =~= piece);
        assert(split(piece, separator) =~= seq![piece]);
    }
}

/// The characters of `text`.
pub fn chars_of(text: &str) -> (chars: Vec<char>)
    ensures
        chars@ == text@,
{
    let mut chars: Vec<char> = Vec::new();
    for c in it: text.chars()
        invariant
            it.seq() == text@,
            chars@ == it.seq().take(it.index() as int),
    {
        chars.push(c);
    }
    chars
}

/// Whether `separator` occurs in `text`.
pub fn contains_char(text: &str, separator: char) -> (found: bool)
    ensures
        found == text@.contains(separator),
{
    let chars = chars_of(text);
    let mut i: usize = 0;
    while i < chars.len()
        invariant
            i <= chars.len(),
            chars@ == text@,
            !text@.take(i as int).contains(separator),
        decreases chars.len() - i,
    {
        if chars[i] == separator {
            assert(text@[i as int] == separator);
            return true;
        }
        proof {
            let before = text@.take(i as int);
            let after = text@.take(i + 1);
            if after.contains(separator) {
                let k = choose|k: int| 0 <= k < after.len() && after[k] == separator;
                assert(before[k] == separator);
            }
        }
        i = i + 1;
    }
    assert(text@.take(i as int) =~= text@);
    false
}

/// The pieces of `text` between the occurrences of `separator`.
pub fn split_str<'a>(text: &'a str, separator: char) -> (pieces: Vec<&'a str>)
    ensures
        pieces.len() == split(text@, separator).len(),
        forall|i: int|
            0 <= i < pieces.len() ==> (#[trigger] pieces[i])@ == split(text@, separator)[i],
{
    let chars = chars_of(text);
    let mut pieces: Vec<&'a str> = Vec::new();
    let mut start: usize = 0;
    let mut i: usize = 0;
    while i < chars.len()
        invariant
            start <= i <= chars.len(),
            chars@ == text@,
            pieces.len() + 1 == split(text@.take(i as int), separator).len(),
            forall|k: int|
                0 <= k < pieces.len() ==> (#[trigger] pieces[k])@ == split(
                    text@.take(i as int),
                    separator,
                )[k],
            text@.subrange(start as int, i as int) == split(
                text@.take(i as int),
                separator,
            ).last(),
        decreases chars.len() - i,
    {
        let ghost before = text@.take(i as int);
        let ghost after = text@.take(i + 1);
        assert(after.drop_last() =~= before);
        assert(after.last() == text@[i as int]);
        if chars[i] == separator {
            pieces.push(text.substring_char(start, i));
            start = i + 1;
            assert(text@.subrange(start as int, i + 1) =~= Seq::empty());
        } else {
            assert(text@.subrange(start as int, i + 1) =~= text@.subrange(
                start as int,
                i as int,
            ).push(text@[i as int]));
        }
        i = i + 1;
    }
    assert(text@.take(i as int) =~= text@);
    pieces.push(text.substring_char(start, i));
    pieces
}

/// Whether `c` is a decimal digit.
pub open spec fn is_digit(c: char) -> bool {
    '0' <= c && c <= '9'
}

/// The value of a decimal digit.
pub open spec fn digit(c: char) -> nat {
    (c as int - '0' as int) as nat
}

/// Whether all characters are decimal digits.
pub open spec fn all_digits(text: Seq<char>) -> bool {
    forall|i: int| 0 <= i < text.len() ==> is_digit(#[trigger] text[i])
}

/// The number that a sequence of decimal digits writes.
pub open spec fn decimal(text: Seq<char>) -> nat
    decreases text.len(),
{
    if text.len() == 0 {
        0
    } else {
        10 * decimal(text.drop_last()) + digit(text.last())
    }
}

/// `text` without one leading `+` that something follows.
pub open spec fn unsigned(text: Seq<char>) -> Seq<char> {
    if text.len() > 1 && text[0] == '+' {
        text.skip(1)
    } else {
        text
    }
}

/// Whether the first thing wrong with `digits`, read from the left, is a
/// character that is no digit.
pub open spec fn stops_on_non_digit(digits: Seq<char>) -> bool {
    exists|k: int|
        0 <= k < digits.len() && !is_digit(#[trigger] digits[k]) && all_digits(digits.take(k))
            && decimal(digits.take(k)) <= u8::MAX
}

/// What `text` reads as: an optional `+` and decimal digits that write a number
/// of at most 255.
pub open spec fn octet(text: Seq<char>) -> Result<u8, OctetError> {
    let digits = unsigned(text);
    if text.len() == 0 {
        Err(OctetError::Empty)
    } else if all_digits(digits) && decimal(digits) <= u8::MAX {
        Ok(decimal(digits) as u8)
    } else if stops_on_non_digit(digits) {
        Err(OctetError::InvalidDigit)
    } else {
        Err(OctetError::TooLarge)
    }
}

/// A longer run of digits writes no smaller number.
proof fn lemma_decimal_grows(text: Seq<char>, k: int)
    requires
        0 <= k <= text.len(),
    ensures
        decimal(text.take(k)) <= decimal(text),
    decreases text.len(),
{
    if k == text.len() {
        assert(text.take(k) =~= text);
    } else {
        lemma_decimal_grows(text.drop_last(), k);
        assert(text.drop_last().take(k) =~= text.take(k));
    }
}

/// Reads an octet.
pub fn parse_octet(text: &str) -> (value: Result<u8, OctetError>)
    ensures
        value == octet(text@),
{
    let chars = chars_of(text);
    if chars.len() == 0 {
        return Err(OctetError::Empty);
    }
    let start: usize = if chars.len() > 1 && chars[0] == '+' {
        1
    } else {
        0
    };
    let ghost digits = unsigned(text@);
    let mut value: u32 = 0;
    let mut i: usize = start;
    while i < chars.len()
        invariant
            start <= i <= chars.len(),
            start <= 1,
            chars@ == text@,
            text@.len() > 0,
            digits == unsigned(text@),
            digits == text@.skip(start as int),
            all_digits(digits.take(i - start)),
            value == decimal(digits.take(i - start)),
            value <= u8::MAX,
        decreases chars.len() - i,
    {
        let c = chars[i];
        let ghost k = i - start;
        assert(digits[k] == c);
        assert(digits.take(k + 1).drop_last() =~= digits.take(k));
        if !('0' <= c && c <= '9') {
            assert(!is_digit(digits[k]));
            return Err(OctetError::InvalidDigit);
        }
        value = value * 10 + (c as u32 - '0' as u32);
        if value > 255 {
            proof {
                lemma_decimal_grows(digits, k + 1);
                if stops_on_non_digit(digits) {
                    let j = choose|j: int|
                        0 <= j < digits.len() && !is_digit(#[trigger] digits[j]) && all_digits(
                            digits.take(j),
                        ) && decimal(digits.take(j)) <= u8::MAX;
                    if j <= k {
                        if j < k {
                            assert(is_digit(digits.take(k)[j]));
                        }
                    } else {
                        lemma_decimal_grows(digits.take(j), k + 1);
                        assert(digits.take(j).take(k + 1) =~= digits.take(k + 1));
                    }
                }
            }
            return Err(OctetError::TooLarge);
        }
        assert forall|j: int| 0 <= j < digits.take(k + 1).len() implies is_digit(
            #[trigger] digits.take(k + 1)[j],
        ) by {
            if j < k {
                assert(is_digit(digits.take(k)[j]));
            }
        }
        i = i + 1;
    }
    assert(digits.take(i - start) =~= digits);
    Ok(value as u8)
}

/// A separator makes two pieces, and two make three.
pub proof fn law_separators_make_pieces(text: Seq<char>, separator: char, i: int, j: int)
    requires
        0 <= i <= j < text.len(),
        text[i] == separator,
        text[j] == separator,
    ensures
        split(text, separator).len() >= 2,
        i < j ==> split(text, separator).len() >= 3,
    decreases text.len(),
{
    let front = text.drop_last();
    law_split_then_join(front, separator);
    if j < text.len() - 1 {
        law_separators_make_pieces(front, separator, i, j);
    } else if i < j {
        law_separators_make_pieces(front, separator, i, i);
    }
}

/// Nothing but the empty text is refused for being empty.
pub proof fn law_octet_of_empty_text(text: Seq<char>)
    ensures
        octet(text) == Err::<u8, OctetError>(OctetError::Empty) <==> text.len() == 0,
{
}

/// A single character reads as the digit that it is.
pub proof fn law_octet_of_one_character(c: char)
    ensures
        '0' <= c <= '9' ==> octet(seq![c]) == Ok::<u8, OctetError>((c as int - 48) as u8),
        !('0' <= c <= '9') ==> octet(seq![c]) == Err::<u8, OctetError>(OctetError::InvalidDigit),
{
    let text = seq![c];
    assert(text.drop_last() =~= Seq::<char>::empty());
    assert(decimal(text) == 10 * decimal(text.drop_last()) + digit(c));
    assert(text.take(0) =~= Seq::<char>::empty());
    assert(text[0] == c);
    if !('0' <= c <= '9') {
        assert(!is_digit(text[0]));
        assert(decimal(text.take(0)) == 0);
    }
}

/// One more character shifts the number by a place: it is read where it is a digit and
/// the number stays below 256. Otherwise the first thing that is wrong is reported, and
/// what was wrong before stays so. A `+` alone, which a number may follow, is left out.
pub proof fn law_octet_of_one_more_character(text: Seq<char>, c: char)
    requires
        text.len() > 0,
        text.len() == 1 ==> text[0] != '+',
    ensures
        match octet(text) {
            Ok(value) => if !('0' <= c <= '9') {
                octet(text.push(c)) == Err::<u8, OctetError>(OctetError::InvalidDigit)
            } else if 10 * value + (c as int - 48) > 255 {
                octet(text.push(c)) == Err::<u8, OctetError>(OctetError::TooLarge)
            } else {
                octet(text.push(c)) == Ok::<u8, OctetError>(
                    (10 * value + (c as int - 48)) as u8,
                )
            },
            Err(error) => octet(text.push(c)) == Err::<u8, OctetError>(error),
        },
{
    let more = text.push(c);
    let digits = unsigned(text);
    let n = digits.len() as int;
    assert(unsigned(more) =~= digits.push(c));
    let all = unsigned(more);
    assert(all.drop_last() =~= digits);
    assert(all.take(n) =~= digits);
    assert(digits.take(n) =~= digits);
    assert(decimal(all) == 10 * decimal(digits) + digit(c));
    assert(all[n] == c);
    assert forall|k: int| 0 <= k < n implies all[k] == digits[k] && all.take(k) == digits.take(
        k,
    ) by {
        assert(all.take(k) =~= digits.take(k));
    }
    assert(all_digits(all) <==> all_digits(digits) && is_digit(c)) by {
        if all_digits(all) {
            assert forall|k: int| 0 <= k < n implies is_digit(#[trigger] digits[k]) by {
                assert(is_digit(all[k]));
            }
            assert(is_digit(all[n]));
        }
        if all_digits(digits) && is_digit(c) {
            assert forall|k: int| 0 <= k < all.len() implies is_digit(#[trigger] all[k]) by {
                if k < n {
                    assert(is_digit(digits[k]));
                }
            }
        }
    }
    assert(stops_on_non_digit(all) <==> stops_on_non_digit(digits) || (!is_digit(c) && all_digits(
        digits,
    ) && decimal(digits) <= u8::MAX)) by {
        if stops_on_non_digit(digits) {
            let k = choose|k: int|
                0 <= k < digits.len() && !is_digit(#[trigger] digits[k]) && all_digits(
                    digits.take(k),
                ) && decimal(digits.take(k)) <= u8::MAX;
            assert(!is_digit(all[k]));
        }
        if !is_digit(c) && all_digits(digits) && decimal(digits) <= u8::MAX {
            assert(!is_digit(all[n]));
        }
        if stops_on_non_digit(all) {
            let k = choose|k: int|
                0 <= k < all.len() && !is_digit(#[trigger] all[k]) && all_digits(all.take(k))
                    && decimal(all.take(k)) <= u8::MAX;
            if k < n {
                assert(!is_digit(digits[k]));
            }
        }
    }
    if stops_on_non_digit(digits) {
        let k = choose|k: int|
            0 <= k < digits.len() && !is_digit(#[trigger] digits[k]) && all_digits(
                digits.take(k),
            ) && decimal(digits.take(k)) <= u8::MAX;
        assert(!all_digits(digits));
    }
}

/// A leading `+` changes nothing about a number, and a second one is no digit.
pub proof fn law_octet_with_sign(text: Seq<char>)
    requires
        text.len() > 0,
    ensures
        text[0] != '+' ==> octet(seq!['+'] + text) == octet(text),
        text[0] == '+' ==> octet(seq!['+'] + text) == Err::<u8, OctetError>(
            OctetError::InvalidDigit,
        ),
{
    let signed = seq!['+'] + text;
    assert(unsigned(signed) =~= text);
    if text[0] == '+' {
        assert(!is_digit(text[0]));
        assert(text.take(0) =~= Seq::<char>::empty());
        assert(decimal(text.take(0)) == 0);
        assert(!all_digits(text));
    }
}

} // verus!
