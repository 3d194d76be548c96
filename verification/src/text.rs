//! Text as sequences of characters: building, decimal numbers, splitting.

use vstd::prelude::*;

verus! {

/// Appends one character.
///
/// Trusted: `String::push` adds the character at the end of the text.
#[verifier::external_body]
fn push_char(text: &mut String, character: char)
    ensures
        final(text)@ == old(text)@.push(character),
{
    text.push(character)
}

/// The characters of a text.
pub fn to_chars(text: &str) -> (result: Vec<char>)
    ensures
        result@ == text@,
{
    broadcast use vstd::string::axiom_spec_iter;

    let mut result: Vec<char> = Vec::new();
    for character in iter: text.chars()
        invariant
            iter.seq() == text@,
            result@ == text@.take(iter.index() as int),
    {
        result.push(character);
        assert(result@ =~= text@.take(iter.index() as int + 1));
    }
    assert(result@ =~= text@);
    result
}

/// The text made of the given characters.
pub fn from_chars(characters: &[char]) -> (result: String)
    ensures
        result@ == characters@,
{
    let mut result = String::new();
    let mut index: usize = 0;
    while index < characters.len()
        invariant
            index <= characters@.len(),
            result@ == characters@.take(index as int),
        decreases characters@.len() - index,
    {
        push_char(&mut result, characters[index]);
        assert(characters@.take(index + 1) =~= characters@.take(index as int).push(
            characters@[index as int],
        ));
        index += 1;
    }
    assert(characters@.take(characters@.len() as int) =~= characters@);
    result
}

/// An owned copy of a text.
pub fn owned(text: &str) -> (result: String)
    ensures
        result@ == text@,
{
    text.to_owned()
}

/// Appends the characters of one sequence to another.
pub fn append_chars(target: &mut Vec<char>, source: &[char])
    ensures
        final(target)@ == old(target)@ + source@,
{
    let ghost before = target@;
    let mut index: usize = 0;
    assert(before + source@.take(0) =~= before);
    while index < source.len()
        invariant
            index <= source@.len(),
            target@ == before + source@.take(index as int),
        decreases source@.len() - index,
    {
        target.push(source[index]);
        assert(before + source@.take(index + 1) =~= (before + source@.take(index as int)).push(
            source@[index as int],
        ));
        index += 1;
    }
    assert(source@.take(source@.len() as int) =~= source@);
}

/// Tells whether two character sequences are the same.
pub fn same_chars(left: &[char], right: &[char]) -> (result: bool)
    ensures
        result == (left@ == right@),
{
    if left.len() != right.len() {
        return false;
    }
    let mut index: usize = 0;
    while index < left.len()
        invariant
            index <= left@.len(),
            left@.len() == right@.len(),
            left@.take(index as int) == right@.take(index as int),
        decreases left@.len() - index,
    {
        if left[index] != right[index] {
            assert(left@[index as int] != right@[index as int]);
            return false;
        }
        assert(left@.take(index + 1) =~= left@.take(index as int).push(left@[index as int]));
        assert(right@.take(index + 1) =~= right@.take(index as int).push(right@[index as int]));
        index += 1;
    }
    assert(left@.take(left@.len() as int) =~= left@);
    assert(right@.take(right@.len() as int) =~= right@);
    true
}

/// Tells whether a text is the given one.
pub fn same_text(left: &str, right: &str) -> (result: bool)
    ensures
        result == (left@ == right@),
{
    let left: Vec<char> = to_chars(left);
    let right: Vec<char> = to_chars(right);
    same_chars(left.as_slice(), right.as_slice())
}

/// The decimal digit of a number below ten.
pub open spec fn digit_char(digit: int) -> char {
    if digit == 0 {
        '0'
    } else if digit == 1 {
        '1'
    } else if digit == 2 {
        '2'
    } else if digit == 3 {
        '3'
    } else if digit == 4 {
        '4'
    } else if digit == 5 {
        '5'
    } else if digit == 6 {
        '6'
    } else if digit == 7 {
        '7'
    } else if digit == 8 {
        '8'
    } else {
        '9'
    }
}

fn exec_digit_char(digit: u64) -> (result: char)
    requires
        digit < 10,
    ensures
        result == digit_char(digit as int),
{
    match digit {
        0 => '0',
        1 => '1',
        2 => '2',
        3 => '3',
        4 => '4',
        5 => '5',
        6 => '6',
        7 => '7',
        8 => '8',
        _ => '9',
    }
}

/// A number in decimal, without leading zeros.
pub open spec fn decimal(value: nat) -> Seq<char>
    decreases value,
{
    if value < 10 {
        seq![digit_char(value as int)]
    } else {
        decimal(value / 10).push(digit_char((value % 10) as int))
    }
}

/// Two numbers are the same where their decimal digits are.
pub proof fn law_decimal_tells_numbers_apart(first: nat, second: nat)
    requires
        decimal(first) == decimal(second),
    ensures
        first == second,
    decreases first,
{
    let a = decimal(first);
    let b = decimal(second);
    assert(a.last() == digit_char((first % 10) as int));
    assert(b.last() == digit_char((second % 10) as int));
    assert(first % 10 == second % 10);
    if first >= 10 {
        lemma_decimal_has_digits(first / 10);
        assert(a.drop_last() =~= decimal(first / 10));
        if second >= 10 {
            assert(b.drop_last() =~= decimal(second / 10));
            law_decimal_tells_numbers_apart(first / 10, second / 10);
        }
    } else if second >= 10 {
        lemma_decimal_has_digits(second / 10);
    }
}

proof fn lemma_decimal_has_digits(value: nat)
    ensures
        decimal(value).len() >= 1,
{
}

/// The decimal digits of a number, without leading zeros.
pub fn decimal_chars(value: u64) -> (result: Vec<char>)
    ensures
        result@ == decimal(value as nat),
    decreases value,
{
    if value < 10 {
        let mut result: Vec<char> = Vec::new();
        result.push(exec_digit_char(value));
        assert(result@ =~= decimal(value as nat));
        result
    } else {
        let mut result: Vec<char> = decimal_chars(value / 10);
        result.push(exec_digit_char(value % 10));
        result
    }
}

/// Digits of a signed number, without its sign.
pub open spec fn magnitude(value: i64) -> nat {
    if value < 0 {
        (-value) as nat
    } else {
        value as nat
    }
}

/// `count` zeros.
pub open spec fn zeros(count: nat) -> Seq<char> {
    Seq::new(count, |i: int| '0')
}

/// A signed number in decimal, filled with zeros behind the sign up to `width` characters.
pub open spec fn padded_decimal(value: i64, width: int) -> Seq<char> {
    let sign = if value < 0 {
        seq!['-']
    } else {
        Seq::empty()
    };
    let digits = decimal(magnitude(value));
    let used = sign.len() + digits.len();
    sign + zeros(
        if width > used {
            (width - used) as nat
        } else {
            0
        },
    ) + digits
}

/// A signed number in decimal, filled with zeros behind the sign up to `width` characters.
pub fn padded_decimal_chars(value: i64, width: usize) -> (result: Vec<char>)
    ensures
        result@ == padded_decimal(value, width as int),
{
    let mut result: Vec<char> = Vec::new();
    let magnitude: u64 = if value < 0 {
        if value == i64::MIN {
            9_223_372_036_854_775_808u64
        } else {
            (0 - value) as u64
        }
    } else {
        value as u64
    };
    if value < 0 {
        result.push('-');
    }
    let digits: Vec<char> = decimal_chars(magnitude);
    let ghost sign = result@;
    assert(sign =~= if value < 0 {
        seq!['-']
    } else {
        Seq::empty()
    });
    let ghost fill = if width > sign.len() + digits@.len() {
        (width - (sign.len() + digits@.len())) as nat
    } else {
        0
    };
    let target: usize = if width > digits.len() {
        width - digits.len()
    } else {
        0
    };
    assert(result@ =~= sign + zeros(0));
    while result.len() < target
        invariant
            sign.len() <= result@.len(),
            sign.len() <= 1,
            result@ == sign + zeros((result@.len() - sign.len()) as nat),
            target == if width > digits@.len() {
                width - digits@.len()
            } else {
                0
            },
            fill == if width > sign.len() + digits@.len() {
                (width - (sign.len() + digits@.len())) as nat
            } else {
                0
            },
            result@.len() - sign.len() <= fill,
        decreases target - result@.len(),
    {
        result.push('0');
        assert(result@ =~= sign + zeros((result@.len() - sign.len()) as nat));
    }
    append_chars(&mut result, digits.as_slice());
    result
}

/// The value of a decimal digit.
pub open spec fn digit_value(character: char) -> Option<int> {
    if '0' <= character <= '9' {
        Some(character as int - '0' as int)
    } else {
        None
    }
}

fn exec_digit_value(character: char) -> (result: Option<u64>)
    ensures
        match result {
            Some(value) => digit_value(character) == Some(value as int) && value < 10,
            None => digit_value(character) is None,
        },
{
    match character {
        '0' => Some(0),
        '1' => Some(1),
        '2' => Some(2),
        '3' => Some(3),
        '4' => Some(4),
        '5' => Some(5),
        '6' => Some(6),
        '7' => Some(7),
        '8' => Some(8),
        '9' => Some(9),
        _ => None,
    }
}

/// The number that a run of digits stands for.
pub open spec fn digits_value(digits: Seq<char>) -> Option<int>
    decreases digits.len(),
{
    if digits.len() == 0 {
        Some(0)
    } else {
        match (digits_value(digits.drop_last()), digit_value(digits.last())) {
            (Some(high), Some(low)) => Some(high * 10 + low),
            _ => None,
        }
    }
}

/// The unsigned number that a text stands for: an optional plus sign, then at least one digit.
pub open spec fn parsed_unsigned(text: Seq<char>, max: int) -> Option<int> {
    let digits = if text.len() > 0 && text[0] == '+' {
        text.skip(1)
    } else {
        text
    };
    match digits_value(digits) {
        Some(value) => if digits.len() > 0 && value <= max {
            Some(value)
        } else {
            None
        },
        None => None,
    }
}

proof fn lemma_digits_prefix(digits: Seq<char>, count: int)
    requires
        0 <= count <= digits.len(),
    ensures
        digits_value(digits.take(count)) is None ==> digits_value(digits) is None,
        digits_value(digits.take(count)) matches Some(low) ==> low >= 0 && (digits_value(
            digits,
        ) matches Some(value) ==> value >= low),
    decreases digits.len(),
{
    if count < digits.len() {
        lemma_digits_prefix(digits.drop_last(), count);
        assert(digits.drop_last().take(count) =~= digits.take(count));
    } else {
        assert(digits.take(count) =~= digits);
        if digits.len() > 0 {
            lemma_digits_prefix(digits.drop_last(), digits.len() - 1);
            assert(digits.drop_last().take(digits.len() - 1) =~= digits.drop_last());
        }
    }
}

/// Reads an unsigned number no greater than `max`.
pub fn parse_unsigned(text: &[char], max: u64) -> (result: Option<u64>)
    ensures
        match result {
            Some(value) => parsed_unsigned(text@, max as int) == Some(value as int),
            None => parsed_unsigned(text@, max as int) is None,
        },
{
    let start: usize = if text.len() > 0 && text[0] == '+' {
        1
    } else {
        0
    };
    let ghost digits = text@.skip(start as int);
    assert(start == 0 ==> digits =~= text@);
    if start == text.len() {
        return None;
    }
    let mut value: u64 = 0;
    let mut index: usize = start;
    assert(digits.take(0) =~= Seq::empty());
    while index < text.len()
        invariant
            start <= index <= text@.len(),
            start == if text@.len() > 0 && text@[0] == '+' {
                1int
            } else {
                0int
            },
            digits == text@.skip(start as int),
            start == 0 ==> digits == text@,
            digits_value(digits.take(index - start)) == Some(value as int),
            value <= max,
        decreases text@.len() - index,
    {
        let ghost before = digits.take(index - start);
        let ghost after = digits.take(index + 1 - start);
        assert(after.drop_last() =~= before);
        assert(after.last() == text@[index as int]);
        match exec_digit_value(text[index]) {
            None => {
                proof {
                    lemma_digits_prefix(digits, index + 1 - start);
                }
                return None;
            },
            Some(digit) => {
                if value > max / 10 || max < digit || value * 10 > max - digit {
                    proof {
                        lemma_digits_prefix(digits, index + 1 - start);
                    }
                    return None;
                }
                value = value * 10 + digit;
            },
        }
        index += 1;
    }
    assert(digits.take(digits.len() as int) =~= digits);
    Some(value)
}

/// Copies part of a character sequence.
pub fn slice_chars(text: &[char], from: usize, to: usize) -> (result: Vec<char>)
    requires
        from <= to <= text@.len(),
    ensures
        result@ == text@.subrange(from as int, to as int),
{
    let mut result: Vec<char> = Vec::new();
    let mut index: usize = from;
    while index < to
        invariant
            from <= index <= to <= text@.len(),
            result@ == text@.subrange(from as int, index as int),
        decreases to - index,
    {
        result.push(text[index]);
        assert(text@.subrange(from as int, index + 1) =~= text@.subrange(
            from as int,
            index as int,
        ).push(text@[index as int]));
        index += 1;
    }
    result
}

/// Position of the first occurrence of a character at or after `from`.
pub open spec fn first_at(text: Seq<char>, character: char, from: int) -> Option<int>
    decreases text.len() - from,
{
    if from < 0 || from >= text.len() {
        None
    } else if text[from] == character {
        Some(from)
    } else {
        first_at(text, character, from + 1)
    }
}

/// Finds the first occurrence of a character at or after `from`.
pub fn find_char(text: &[char], character: char, from: usize) -> (result: Option<usize>)
    ensures
        match result {
            Some(index) => first_at(text@, character, from as int) == Some(index as int) && from
                <= index < text@.len() && text@[index as int] == character,
            None => first_at(text@, character, from as int) is None,
        },
{
    let mut index: usize = from;
    while index < text.len()
        invariant
            from <= index,
            first_at(text@, character, from as int) == first_at(text@, character, index as int),
        decreases text@.len() - index,
    {
        if text[index] == character {
            return Some(index);
        }
        index += 1;
    }
    None
}

/// Tells whether a text begins with `prefix`.
pub fn starts_with(text: &[char], prefix: &[char]) -> (result: bool)
    ensures
        result == prefix@.is_prefix_of(text@),
{
    if text.len() < prefix.len() {
        return false;
    }
    let head: Vec<char> = slice_chars(text, 0, prefix.len());
    let result: bool = same_chars(head.as_slice(), prefix);
    assert(prefix@.is_prefix_of(text@) == (prefix@ =~= text@.subrange(0, prefix@.len() as int)));
    result
}

/// The lower-case hexadecimal digit of a number below sixteen.
pub open spec fn hex_digit(digit: int) -> char {
    if digit < 10 {
        digit_char(digit)
    } else if digit == 10 {
        'a'
    } else if digit == 11 {
        'b'
    } else if digit == 12 {
        'c'
    } else if digit == 13 {
        'd'
    } else if digit == 14 {
        'e'
    } else {
        'f'
    }
}

fn exec_hex_digit(digit: u64) -> (result: char)
    requires
        digit < 16,
    ensures
        result == hex_digit(digit as int),
{
    if digit < 10 {
        exec_digit_char(digit)
    } else if digit == 10 {
        'a'
    } else if digit == 11 {
        'b'
    } else if digit == 12 {
        'c'
    } else if digit == 13 {
        'd'
    } else if digit == 14 {
        'e'
    } else {
        'f'
    }
}

/// Two hexadecimal digits for each byte.
pub open spec fn hex_pairs(bytes: Seq<u8>) -> Seq<char>
    decreases bytes.len(),
{
    if bytes.len() == 0 {
        Seq::empty()
    } else {
        hex_pairs(bytes.drop_last()).push(hex_digit(bytes.last() as int / 16)).push(
            hex_digit(bytes.last() as int % 16),
        )
    }
}

/// Writes two hexadecimal digits for each byte.
pub fn hex_pair_chars(bytes: &[u8]) -> (result: Vec<char>)
    ensures
        result@ == hex_pairs(bytes@),
{
    let mut result: Vec<char> = Vec::new();
    let mut index: usize = 0;
    assert(bytes@.take(0) =~= Seq::<u8>::empty());
    while index < bytes.len()
        invariant
            index <= bytes@.len(),
            result@ == hex_pairs(bytes@.take(index as int)),
        decreases bytes@.len() - index,
    {
        let byte: u64 = bytes[index] as u64;
        result.push(exec_hex_digit(byte / 16));
        result.push(exec_hex_digit(byte % 16));
        proof {
            assert(bytes@.take(index + 1).drop_last() =~= bytes@.take(index as int));
        }
        index += 1;
    }
    assert(bytes@.take(index as int) =~= bytes@);
    result
}

/// A byte as `0x` and two hexadecimal digits.
pub open spec fn hex_byte(value: u8) -> Seq<char> {
    seq!['0', 'x', hex_digit(value as int / 16), hex_digit(value as int % 16)]
}

/// Writes a byte as `0x` and two hexadecimal digits.
pub fn hex_byte_chars(value: u8) -> (result: Vec<char>)
    ensures
        result@ == hex_byte(value),
{
    let mut result: Vec<char> = Vec::new();
    result.push('0');
    result.push('x');
    result.push(exec_hex_digit(value as u64 / 16));
    result.push(exec_hex_digit(value as u64 % 16));
    assert(result@ =~= hex_byte(value));
    result
}

/// Whether a character is white space.
pub open spec fn is_white_space(character: char) -> bool {
    let code = character as int;
    ||| 0x09 <= code <= 0x0d
    ||| code == 0x20
    ||| code == 0x85
    ||| code == 0xa0
    ||| code == 0x1680
    ||| 0x2000 <= code <= 0x200a
    ||| code == 0x2028
    ||| code == 0x2029
    ||| code == 0x202f
    ||| code == 0x205f
    ||| code == 0x3000
}

/// Tells whether a character is white space.
pub fn exec_is_white_space(character: char) -> (result: bool)
    ensures
        result == is_white_space(character),
{
    let code: u32 = character as u32;
    (0x09 <= code && code <= 0x0d) || code == 0x20 || code == 0x85 || code == 0xa0 || code == 0x1680
        || (0x2000 <= code && code <= 0x200a) || code == 0x2028 || code == 0x2029 || code == 0x202f
        || code == 0x205f || code == 0x3000
}

/// A text without the white space at its front.
pub open spec fn trimmed_start(text: Seq<char>) -> Seq<char>
    decreases text.len(),
{
    if text.len() > 0 && is_white_space(text[0]) {
        trimmed_start(text.skip(1))
    } else {
        text
    }
}

/// A text without the white space at its back.
pub open spec fn trimmed_end(text: Seq<char>) -> Seq<char>
    decreases text.len(),
{
    if text.len() > 0 && is_white_space(text.last()) {
        trimmed_end(text.drop_last())
    } else {
        text
    }
}

/// A text without the white space around it.
pub open spec fn trimmed(text: Seq<char>) -> Seq<char> {
    trimmed_end(trimmed_start(text))
}

/// Takes the white space around a text away.
pub fn trim(text: &[char]) -> (result: Vec<char>)
    ensures
        result@ == trimmed(text@),
{
    let mut start: usize = 0;
    assert(text@.skip(0) =~= text@);
    while start < text.len() && exec_is_white_space(text[start])
        invariant
            start <= text@.len(),
            trimmed_start(text@) == trimmed_start(text@.skip(start as int)),
        decreases text@.len() - start,
    {
        assert(text@.skip(start as int).skip(1) =~= text@.skip(start + 1));
        start += 1;
    }
    assert(trimmed_start(text@) == text@.skip(start as int));
    let ghost front = text@.skip(start as int);
    let mut end: usize = text.len();
    assert(text@.subrange(start as int, end as int) =~= front);
    while end > start && exec_is_white_space(text[end - 1])
        invariant
            start <= end <= text@.len(),
            trimmed_end(front) == trimmed_end(text@.subrange(start as int, end as int)),
        decreases end,
    {
        assert(text@.subrange(start as int, end as int).drop_last() =~= text@.subrange(
            start as int,
            end - 1,
        ));
        end -= 1;
    }
    slice_chars(text, start, end)
}

/// The pieces of a text between line feeds.
pub open spec fn split_lines(text: Seq<char>) -> Seq<Seq<char>>
    decreases text.len(),
{
    match first_at(text, '\n', 0) {
        Some(at) => if 0 <= at < text.len() {
            seq![text.subrange(0, at)] + split_lines(text.subrange(at + 1, text.len() as int))
        } else {
            seq![text]
        },
        None => seq![text],
    }
}

/// The lines of a text, each without the white space around it. A carriage return in front of a
/// line feed goes with that white space.
pub open spec fn trimmed_lines(text: Seq<char>) -> Seq<Seq<char>> {
    split_lines(text).map_values(|line: Seq<char>| trimmed(line))
}

/// The characters of each text of a list.
pub open spec fn char_views(texts: Seq<Vec<char>>) -> Seq<Seq<char>> {
    texts.map_values(|text: Vec<char>| text@)
}

/// Splits a text into lines and takes the white space around each away.
pub fn lines_of(text: &[char]) -> (result: Vec<Vec<char>>)
    ensures
        char_views(result@) == trimmed_lines(text@),
{
    let mut result: Vec<Vec<char>> = Vec::new();
    let mut rest: Vec<char> = slice_chars(text, 0, text.len());
    assert(rest@ =~= text@);
    assert(char_views(result@) =~= Seq::<Seq<char>>::empty());
    assert(Seq::<Seq<char>>::empty() + trimmed_lines(text@) =~= trimmed_lines(text@));
    loop
        invariant
            char_views(result@) + trimmed_lines(rest@) == trimmed_lines(text@),
        decreases rest@.len(),
    {
        let len: usize = rest.len();
        let ghost before = result@;
        match find_char(rest.as_slice(), '\n', 0) {
            Some(at) => {
                let line: Vec<char> = slice_chars(rest.as_slice(), 0, at);
                let next: Vec<char> = slice_chars(rest.as_slice(), at + 1, len);
                result.push(trim(line.as_slice()));
                proof {
                    let piece = trimmed(line@);
                    assert(char_views(result@) =~= char_views(before).push(piece));
                    assert(trimmed_lines(rest@) =~= seq![piece] + trimmed_lines(next@));
                    assert(char_views(result@) + trimmed_lines(next@) =~= char_views(before) + (
                    seq![piece] + trimmed_lines(next@)));
                }
                rest = next;
            },
            None => {
                result.push(trim(rest.as_slice()));
                proof {
                    let piece = trimmed(rest@);
                    assert(char_views(result@) =~= char_views(before).push(piece));
                    assert(trimmed_lines(rest@) =~= seq![piece]);
                    assert(char_views(before).push(piece) =~= char_views(before) + seq![piece]);
                }
                return result;
            },
        }
    }
}

/// What follows a prefix.
pub open spec fn behind(text: Seq<char>, prefix: Seq<char>) -> Option<Seq<char>> {
    if prefix.is_prefix_of(text) {
        Some(text.skip(prefix.len() as int))
    } else {
        None
    }
}

/// Takes a prefix off a text that starts with it.
pub fn strip_prefix(text: &[char], prefix: &str) -> (result: Option<Vec<char>>)
    ensures
        match result {
            Some(rest) => behind(text@, prefix@) == Some(rest@),
            None => behind(text@, prefix@) is None,
        },
{
    let prefix: Vec<char> = to_chars(prefix);
    if starts_with(text, prefix.as_slice()) {
        let rest: Vec<char> = slice_chars(text, prefix.len(), text.len());
        assert(rest@ =~= text@.skip(prefix@.len() as int));
        Some(rest)
    } else {
        None
    }
}

/// The first place at which a text holds a pattern.
pub open spec fn first_text(text: Seq<char>, pattern: Seq<char>, from: int) -> Option<int>
    decreases text.len() + 1 - from,
{
    if from < 0 || from + pattern.len() > text.len() {
        None
    } else if text.subrange(from, from + pattern.len()) == pattern {
        Some(from)
    } else {
        first_text(text, pattern, from + 1)
    }
}

/// Finds the first place at which a text holds a pattern.
pub fn find_text(text: &[char], pattern: &[char]) -> (result: Option<usize>)
    ensures
        match result {
            Some(at) => first_text(text@, pattern@, 0) == Some(at as int) && at + pattern@.len()
                <= text@.len(),
            None => first_text(text@, pattern@, 0) is None,
        },
{
    if text.len() < pattern.len() {
        return None;
    }
    let len: usize = text.len();
    let last: usize = len - pattern.len();
    let mut at: usize = 0;
    loop
        invariant
            len == text@.len(),
            at <= last,
            last + pattern@.len() == text@.len(),
            first_text(text@, pattern@, 0) == first_text(text@, pattern@, at as int),
        decreases last - at,
    {
        let part: Vec<char> = slice_chars(text, at, at + pattern.len());
        if same_chars(part.as_slice(), pattern) {
            return Some(at);
        }
        if at == last {
            assert(first_text(text@, pattern@, at + 1) is None);
            return None;
        }
        at += 1;
    }
}

} // verus!
