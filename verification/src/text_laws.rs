//! Texts that are written can be read back.

use vstd::prelude::*;

use crate::text::{
    behind, decimal, digit_char, digit_value, digits_value, first_at, first_text, hex_byte,
    hex_digit, hex_pairs, is_white_space, magnitude, padded_decimal, parsed_unsigned, split_lines,
    trimmed, trimmed_end, trimmed_lines, trimmed_start, zeros,
};

verus! {

/// Decimal digits follow each other in the order of their values.
pub proof fn law_digits_are_in_order(digit: int)
    requires
        0 <= digit < 10,
    ensures
        digit_char(digit) as int == '0' as int + digit,
        digit_value(digit_char(digit)) == Some(digit),
{
}

/// A number that is written in decimal reads back as itself. There are no leading zeros.
pub proof fn law_decimal_reads_back(value: nat)
    ensures
        decimal(value).len() >= 1,
        digits_value(decimal(value)) == Some(value as int),
        decimal(value).len() > 1 ==> decimal(value)[0] != '0',
        forall|i: int| 0 <= i < decimal(value).len() ==> '0' <= #[trigger] decimal(value)[i] <= '9',
    decreases value,
{
    reveal_with_fuel(digits_value, 2);
    let digits = decimal(value);
    if value >= 10 {
        let front = decimal(value / 10);
        law_decimal_reads_back(value / 10);
        assert(digits.drop_last() =~= front);
        assert(digits.last() == digit_char((value % 10) as int));
        assert(digits[0] == front[0]);
        assert forall|i: int| 0 <= i < digits.len() implies '0' <= #[trigger] digits[i] <= '9' by {
            if i < front.len() {
                assert(digits[i] == front[i]);
            }
        }
        if front.len() == 1 {
            reveal_with_fuel(decimal, 2);
            assert(value / 10 < 10) by {
                if value / 10 >= 10 {
                    law_decimal_reads_back(value / 100);
                    assert(decimal(value / 10) == decimal(value / 10 / 10).push(
                        digit_char((value / 10 % 10) as int),
                    ));
                    assert(value / 10 / 10 == value / 100);
                }
            }
            assert(front[0] == digit_char((value / 10) as int));
        }
    } else {
        assert(digits[0] == digit_char(value as int));
        assert(digits.drop_last().len() == 0);
    }
}

/// What reads as a number is a run of digits, each weighing ten times the next.
pub proof fn law_digits_weigh_ten(digits: Seq<char>, digit: char)
    ensures
        digits_value(digits) is Some <==> forall|i: int|
            0 <= i < digits.len() ==> '0' <= #[trigger] digits[i] <= '9',
        digits_value(digits) is Some && '0' <= digit <= '9' ==> digits_value(digits.push(digit))
            == Some(10 * digits_value(digits)->0 + (digit as int - '0' as int)),
        digits_value(digits) matches Some(value) ==> value >= 0,
    decreases digits.len(),
{
    assert(digits.push(digit).drop_last() =~= digits);
    if digits.len() > 0 {
        let front = digits.drop_last();
        law_digits_weigh_ten(front, digit);
        if digits_value(digits) is Some {
            assert forall|i: int| 0 <= i < digits.len() implies '0' <= #[trigger] digits[i] <= '9' by {
                if i < front.len() {
                    assert(digits[i] == front[i]);
                }
            }
        }
        if forall|i: int| 0 <= i < digits.len() ==> '0' <= #[trigger] digits[i] <= '9' {
            assert forall|i: int| 0 <= i < front.len() implies '0' <= #[trigger] front[i] <= '9' by {
                assert(digits[i] == front[i]);
            }
            assert('0' <= digits[digits.len() - 1] <= '9');
        }
    }
}

/// An unsigned number is read with or without a plus sign, up to the largest allowed, and an empty
/// text is no number.
pub proof fn law_unsigned_number_reads_back(value: nat, max: int)
    ensures
        value <= max ==> parsed_unsigned(decimal(value), max) == Some(value as int),
        value > max ==> parsed_unsigned(decimal(value), max) is None,
        parsed_unsigned(seq!['+'] + decimal(value), max) == parsed_unsigned(decimal(value), max),
        parsed_unsigned(Seq::empty(), max) is None,
        parsed_unsigned(seq!['+'], max) is None,
{
    law_decimal_reads_back(value);
    let digits = decimal(value);
    assert(digits[0] != '+');
    assert((seq!['+'] + digits).skip(1) =~= digits);
    assert(seq!['+'].skip(1).len() == 0);
}

/// A text with anything but digits behind an optional plus sign is no unsigned number.
pub proof fn law_only_digits_make_a_number(text: Seq<char>, max: int, i: int)
    requires
        0 <= i < text.len(),
        !('0' <= text[i] <= '9'),
        i > 0 || text[0] != '+',
    ensures
        parsed_unsigned(text, max) is None,
{
    let digits = if text[0] == '+' {
        text.skip(1)
    } else {
        text
    };
    law_digits_weigh_ten(digits, '0');
    if text[0] == '+' {
        assert(digits[i - 1] == text[i]);
    }
}

/// The value of a hexadecimal digit in lower case.
pub open spec fn hex_value(digit: char) -> int {
    if '0' <= digit <= '9' {
        digit as int - '0' as int
    } else {
        digit as int - 'a' as int + 10
    }
}

/// Each byte is two hexadecimal digits, the higher one first, in the order of the bytes.
pub proof fn law_hexadecimal_reads_back(bytes: Seq<u8>, i: int)
    requires
        0 <= i < bytes.len(),
    ensures
        hex_pairs(bytes).len() == 2 * bytes.len(),
        16 * hex_value(hex_pairs(bytes)[2 * i]) + hex_value(hex_pairs(bytes)[2 * i + 1]) == bytes[i],
        0 <= hex_value(hex_pairs(bytes)[2 * i]) < 16,
        0 <= hex_value(hex_pairs(bytes)[2 * i + 1]) < 16,
    decreases bytes.len(),
{
    let front = bytes.drop_last();
    if front.len() > 0 {
        law_hexadecimal_reads_back(front, if i < front.len() { i } else { 0 });
    } else {
        assert(hex_pairs(front).len() == 0);
    }
    let pairs = hex_pairs(bytes);
    if i < front.len() {
        assert(pairs[2 * i] == hex_pairs(front)[2 * i]);
        assert(pairs[2 * i + 1] == hex_pairs(front)[2 * i + 1]);
    } else {
        assert(pairs[2 * i] == hex_digit(bytes[i] as int / 16));
        assert(pairs[2 * i + 1] == hex_digit(bytes[i] as int % 16));
    }
}

/// A byte in hexadecimal has its prefix and its two digits.
pub proof fn law_hexadecimal_byte(value: u8)
    ensures
        hex_byte(value).len() == 4,
        hex_byte(value).take(2) == seq!['0', 'x'],
        hex_byte(value).skip(2) == hex_pairs(seq![value]),
{
    let bytes = seq![value];
    reveal_with_fuel(hex_pairs, 2);
    assert(bytes.drop_last().len() == 0);
    assert(hex_byte(value).skip(2) =~= hex_pairs(bytes));
    assert(hex_byte(value).take(2) =~= seq!['0', 'x']);
}

/// The value of a text with an optional minus sign and digits.
pub open spec fn signed_value(text: Seq<char>) -> Option<int> {
    if text.len() > 0 && text[0] == '-' {
        match digits_value(text.skip(1)) {
            Some(value) => Some(-value),
            None => None,
        }
    } else {
        digits_value(text)
    }
}

proof fn lemma_leading_zeros(count: nat, digits: Seq<char>)
    ensures
        digits_value(zeros(count) + digits) == digits_value(digits),
    decreases digits.len(), count,
{
    let all = zeros(count) + digits;
    if digits.len() > 0 {
        lemma_leading_zeros(count, digits.drop_last());
        assert(all.drop_last() =~= zeros(count) + digits.drop_last());
    } else if count > 0 {
        lemma_leading_zeros((count - 1) as nat, digits);
        assert(all.drop_last() =~= zeros((count - 1) as nat) + digits);
        assert(all.last() == '0');
    } else {
        assert(all =~= digits);
    }
}

/// A padded number reads back as itself, is at least as long as asked for, and is longer only where
/// the number needs it. Zeros stand behind the sign.
pub proof fn law_padded_number_reads_back(value: i64, width: int)
    ensures
        signed_value(padded_decimal(value, width)) == Some(value as int),
        padded_decimal(value, width).len() >= width,
        padded_decimal(value, width).len() > width ==> padded_decimal(value, width)
            == padded_decimal(value, 0),
        value < 0 ==> padded_decimal(value, width)[0] == '-',
{
    let digits = decimal(magnitude(value));
    law_decimal_reads_back(magnitude(value));
    let sign = if value < 0 {
        seq!['-']
    } else {
        Seq::empty()
    };
    let used = sign.len() + digits.len();
    let count: nat = if width > used {
        (width - used) as nat
    } else {
        0
    };
    let text = padded_decimal(value, width);
    lemma_leading_zeros(count, digits);
    if value < 0 {
        assert(text.skip(1) =~= zeros(count) + digits);
        assert(text[0] == '-');
    } else {
        assert(text =~= zeros(count) + digits);
        assert(text[0] == (if count > 0 {
            '0'
        } else {
            digits[0]
        }));
    }
}

/// The first place of a character is a place of it, and there is none before.
pub proof fn law_first_place_of_a_character(text: Seq<char>, character: char, from: int)
    requires
        0 <= from,
    ensures
        match first_at(text, character, from) {
            Some(at) => from <= at < text.len() && text[at] == character && forall|i: int|
                from <= i < at ==> #[trigger] text[i] != character,
            None => forall|i: int| from <= i < text.len() ==> #[trigger] text[i] != character,
        },
    decreases text.len() - from,
{
    if from < text.len() && text[from] != character {
        law_first_place_of_a_character(text, character, from + 1);
    }
}

/// The first place of a pattern is a place of it, and there is none before.
pub proof fn law_first_place_of_a_pattern(text: Seq<char>, pattern: Seq<char>, from: int)
    requires
        0 <= from,
    ensures
        match first_text(text, pattern, from) {
            Some(at) => from <= at && at + pattern.len() <= text.len() && text.subrange(
                at,
                at + pattern.len(),
            ) == pattern && forall|i: int|
                from <= i < at ==> #[trigger] text.subrange(i, i + pattern.len()) != pattern,
            None => forall|i: int|
                from <= i && i + pattern.len() <= text.len() ==> #[trigger] text.subrange(
                    i,
                    i + pattern.len(),
                ) != pattern,
        },
    decreases text.len() + 1 - from,
{
    if from + pattern.len() <= text.len() && text.subrange(from, from + pattern.len()) != pattern {
        law_first_place_of_a_pattern(text, pattern, from + 1);
    }
}

/// What follows a prefix makes the text again together with the prefix.
pub proof fn law_prefix_comes_off(text: Seq<char>, prefix: Seq<char>, rest: Seq<char>)
    ensures
        behind(prefix + rest, prefix) == Some(rest),
        behind(text, prefix) matches Some(left) ==> prefix + left == text,
{
    assert((prefix + rest).skip(prefix.len() as int) =~= rest);
    if prefix.is_prefix_of(text) {
        assert(prefix + text.skip(prefix.len() as int) =~= text);
    }
}

/// Whether a text is nothing but white space.
pub open spec fn all_white(text: Seq<char>) -> bool {
    forall|i: int| 0 <= i < text.len() ==> is_white_space(#[trigger] text[i])
}

proof fn lemma_trimmed_start(text: Seq<char>)
    ensures
        trimmed_start(text).len() <= text.len(),
        text.skip(text.len() - trimmed_start(text).len()) == trimmed_start(text),
        all_white(text.take(text.len() - trimmed_start(text).len())),
        trimmed_start(text).len() > 0 ==> !is_white_space(trimmed_start(text)[0]),
    decreases text.len(),
{
    if text.len() > 0 && is_white_space(text[0]) {
        let rest = text.skip(1);
        lemma_trimmed_start(rest);
        let cut = text.len() - trimmed_start(text).len();
        assert(rest.skip(cut - 1) =~= text.skip(cut));
        assert forall|i: int| 0 <= i < cut implies is_white_space(#[trigger] text.take(cut)[i]) by {
            if i > 0 {
                assert(rest.take(cut - 1)[i - 1] == text[i]);
            }
        }
    } else {
        assert(text.skip(0) =~= text);
    }
}

proof fn lemma_trimmed_end(text: Seq<char>)
    ensures
        trimmed_end(text).len() <= text.len(),
        text.take(trimmed_end(text).len() as int) == trimmed_end(text),
        all_white(text.skip(trimmed_end(text).len() as int)),
        trimmed_end(text).len() > 0 ==> !is_white_space(trimmed_end(text).last()),
    decreases text.len(),
{
    let left = trimmed_end(text).len() as int;
    if text.len() > 0 && is_white_space(text.last()) {
        let front = text.drop_last();
        lemma_trimmed_end(front);
        assert(front.take(left) =~= text.take(left));
        assert forall|i: int| 0 <= i < text.skip(left).len() implies is_white_space(
            #[trigger] text.skip(left)[i],
        ) by {
            if i < front.len() - left {
                assert(front.skip(left)[i] == text[left + i]);
            }
        }
    } else {
        assert(text.take(left) =~= text);
    }
}

/// A trimmed text is what is left between the white space at both ends: it neither begins nor ends
/// with white space, and what was taken off is white space alone.
pub proof fn law_trimming_takes_white_space_off(text: Seq<char>)
    ensures
        trimmed(text).len() > 0 ==> !is_white_space(trimmed(text)[0]) && !is_white_space(
            trimmed(text).last(),
        ),
        exists|front: Seq<char>, back: Seq<char>|
            #![trigger all_white(front), all_white(back)]
            all_white(front) && all_white(back) && text == front + trimmed(text) + back,
        all_white(text) ==> trimmed(text).len() == 0,
{
    lemma_trimmed_start(text);
    let inner = trimmed_start(text);
    lemma_trimmed_end(inner);
    let left = trimmed(text).len() as int;
    let front = text.take(text.len() - inner.len());
    let back = inner.skip(left);
    assert(all_white(front) && all_white(back));
    assert(text =~= front + trimmed(text) + back);
    if left > 0 {
        assert(trimmed(text)[0] == inner[0]);
        assert(text[text.len() - inner.len()] == inner[0]);
    }
}

/// A text that neither begins nor ends with white space stays as it is, whatever white space is put
/// around it.
pub proof fn law_trimming_finds_the_text(front: Seq<char>, text: Seq<char>, back: Seq<char>)
    requires
        all_white(front),
        all_white(back),
        text.len() > 0,
        !is_white_space(text[0]),
        !is_white_space(text.last()),
    ensures
        trimmed(front + text + back) == text,
{
    lemma_skip_white(front, text + back);
    assert(front + text + back =~= front + (text + back));
    assert(trimmed_start(text + back) == text + back);
    lemma_drop_white(text, back);
}

proof fn lemma_skip_white(front: Seq<char>, rest: Seq<char>)
    requires
        all_white(front),
    ensures
        trimmed_start(front + rest) == trimmed_start(rest),
    decreases front.len(),
{
    if front.len() > 0 {
        let less = front.skip(1);
        assert forall|i: int| 0 <= i < less.len() implies is_white_space(#[trigger] less[i]) by {
            assert(front[i + 1] == less[i]);
        }
        assert(is_white_space(front[0]));
        lemma_skip_white(less, rest);
        assert((front + rest).skip(1) =~= less + rest);
    } else {
        assert(front + rest =~= rest);
    }
}

proof fn lemma_drop_white(text: Seq<char>, back: Seq<char>)
    requires
        all_white(back),
        text.len() > 0,
        !is_white_space(text.last()),
    ensures
        trimmed_end(text + back) == text,
    decreases back.len(),
{
    if back.len() > 0 {
        let less = back.drop_last();
        assert forall|i: int| 0 <= i < less.len() implies is_white_space(#[trigger] less[i]) by {
            assert(back[i] == less[i]);
        }
        assert(is_white_space(back[back.len() - 1]));
        lemma_drop_white(text, less);
        assert((text + back).drop_last() =~= text + less);
    } else {
        assert(text + back =~= text);
    }
}

/// Lines joined with line feeds between them.
pub open spec fn joined_lines(lines: Seq<Seq<char>>) -> Seq<char>
    decreases lines.len(),
{
    if lines.len() == 0 {
        Seq::empty()
    } else if lines.len() == 1 {
        lines[0]
    } else {
        lines[0] + seq!['\n'] + joined_lines(lines.skip(1))
    }
}

/// Splitting a text at its line feeds loses nothing: the pieces joined with line feeds make the text
/// again, and no piece holds one.
pub proof fn law_lines_make_the_text(text: Seq<char>)
    ensures
        split_lines(text).len() >= 1,
        joined_lines(split_lines(text)) == text,
        forall|i: int, k: int|
            0 <= i < split_lines(text).len() && 0 <= k < split_lines(text)[i].len()
                ==> #[trigger] split_lines(text)[i][k] != '\n',
        trimmed_lines(text).len() == split_lines(text).len(),
        forall|i: int|
            0 <= i < trimmed_lines(text).len() ==> #[trigger] trimmed_lines(text)[i] == trimmed(
                split_lines(text)[i],
            ),
    decreases text.len(),
{
    law_first_place_of_a_character(text, '\n', 0);
    let lines = split_lines(text);
    match first_at(text, '\n', 0) {
        Some(at) => {
            let rest = text.subrange(at + 1, text.len() as int);
            law_lines_make_the_text(rest);
            assert(lines.skip(1) =~= split_lines(rest));
            assert(lines[0] == text.subrange(0, at));
            assert(text =~= text.subrange(0, at) + seq!['\n'] + rest);
            assert forall|i: int, k: int|
                0 <= i < lines.len() && 0 <= k < lines[i].len() implies #[trigger] lines[i][k]
                != '\n' by {
                if i > 0 {
                    assert(lines[i] == split_lines(rest)[i - 1]);
                    assert(split_lines(rest)[i - 1][k] != '\n');
                } else {
                    assert(lines[0][k] == text[k]);
                }
            }
        },
        None => {
            assert(lines =~= seq![text]);
            assert(lines[0] == text);
        },
    }
}

/// White space are the tab, the ends of lines and pages, the blank, and the spaces of other widths.
pub proof fn law_white_space_characters(character: char)
    ensures
        is_white_space(character) <==> ({
            let code = character as int;
            ||| code == 0x9
            ||| code == 0xa
            ||| code == 0xb
            ||| code == 0xc
            ||| code == 0xd
            ||| code == 0x20
            ||| code == 0x85
            ||| code == 0xa0
            ||| code == 0x1680
            ||| code == 0x2000
            ||| code == 0x2001
            ||| code == 0x2002
            ||| code == 0x2003
            ||| code == 0x2004
            ||| code == 0x2005
            ||| code == 0x2006
            ||| code == 0x2007
            ||| code == 0x2008
            ||| code == 0x2009
            ||| code == 0x200a
            ||| code == 0x2028
            ||| code == 0x2029
            ||| code == 0x202f
            ||| code == 0x205f
            ||| code == 0x3000
        }),
{
}

} // verus!
