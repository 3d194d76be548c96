//! Text templates with numbered placeholders.

use vstd::prelude::*;

use crate::text::{
    append_chars, find_char, first_at, from_chars, padded_decimal, padded_decimal_chars,
    parse_unsigned, parsed_unsigned, same_chars, slice_chars, to_chars,
};

verus! {

/// The input and the width that a placeholder names: an input number or `n` for the first, then
/// optionally a colon, a zero and a width.
pub open spec fn placeholder(spec: Seq<char>) -> Option<(int, int)> {
    let colon = first_at(spec, ':', 0);
    let name = match colon {
        Some(at) => spec.subrange(0, at),
        None => spec,
    };
    let index = if name == seq!['n'] {
        Some(0int)
    } else {
        parsed_unsigned(name, usize::MAX as int)
    };
    match index {
        None => None,
        Some(index) => match colon {
            None => Some((index, 0)),
            Some(at) => {
                let width = spec.subrange(at + 1, spec.len() as int);
                if width.len() > 0 && width[0] == '0' {
                    match parsed_unsigned(
                        width.subrange(1, width.len() as int),
                        usize::MAX as int,
                    ) {
                        Some(width) => Some((index, width)),
                        None => None,
                    }
                } else {
                    None
                }
            },
        },
    }
}

/// What stands for a placeholder: the value it names, or the placeholder itself.
pub open spec fn substituted(spec: Seq<char>, values: Seq<i64>) -> Seq<char> {
    match placeholder(spec) {
        Some((index, width)) if index < values.len() => padded_decimal(values[index], width),
        _ => seq!['{'] + spec + seq!['}'],
    }
}

/// A template with its placeholders replaced; an unclosed brace stays as it is.
pub open spec fn formatted(template: Seq<char>, values: Seq<i64>) -> Seq<char>
    decreases template.len(),
{
    match first_at(template, '{', 0) {
        None => template,
        Some(open) => match first_at(template, '}', open) {
            None => template,
            Some(close) => if 0 <= open < close < template.len() {
                template.subrange(0, open) + substituted(
                    template.subrange(open + 1, close),
                    values,
                ) + formatted(template.subrange(close + 1, template.len() as int), values)
            } else {
                template
            },
        },
    }
}

fn parse_spec(spec: &Vec<char>) -> (result: Option<(usize, usize)>)
    ensures
        match result {
            Some((index, width)) => placeholder(spec@) == Some((index as int, width as int)),
            None => placeholder(spec@) is None,
        },
{
    let len: usize = spec.len();
    let colon: Option<usize> = find_char(spec.as_slice(), ':', 0);
    let name: Vec<char> = match colon {
        Some(at) => slice_chars(spec.as_slice(), 0, at),
        None => slice_chars(spec.as_slice(), 0, spec.len()),
    };
    proof {
        if colon is None {
            assert(spec@.subrange(0, spec@.len() as int) =~= spec@);
        }
    }
    let alias: Vec<char> = vec!['n'];
    assert(alias@ =~= seq!['n']);
    let index: usize = if same_chars(name.as_slice(), alias.as_slice()) {
        0
    } else {
        match parse_unsigned(name.as_slice(), usize::MAX as u64) {
            Some(index) => index as usize,
            None => return None,
        }
    };
    match colon {
        None => Some((index, 0)),
        Some(at) => {
            let width: Vec<char> = slice_chars(spec.as_slice(), at + 1, len);
            if width.len() == 0 || width[0] != '0' {
                return None;
            }
            let digits: Vec<char> = slice_chars(width.as_slice(), 1, width.len());
            match parse_unsigned(digits.as_slice(), usize::MAX as u64) {
                Some(width) => Some((index, width as usize)),
                None => None,
            }
        },
    }
}

proof fn lemma_first_at_bounds(text: Seq<char>, character: char, from: int)
    requires
        0 <= from,
    ensures
        first_at(text, character, from) matches Some(at) ==> from <= at < text.len() && text[at]
            == character,
    decreases text.len() - from,
{
    if from < text.len() && text[from] != character {
        lemma_first_at_bounds(text, character, from + 1);
    }
}

/// Substitutes value placeholders in a template.
///
/// `{0}`, `{1}` and so on stand for an input value, `{0:04}` for one padded with zeros to a width;
/// `{n}` and `{n:04}` name the first input. Other braces pass through.
pub fn format_template(template: &str, values: &[i64]) -> (result: String)
    ensures
        result@ == formatted(template@, values@),
{
    let mut rest: Vec<char> = to_chars(template);
    let mut result: Vec<char> = Vec::new();
    assert(Seq::<char>::empty() + formatted(template@, values@) =~= formatted(template@, values@));
    loop
        invariant
            result@ + formatted(rest@, values@) == formatted(template@, values@),
        decreases rest@.len(),
    {
        let len: usize = rest.len();
        proof {
            lemma_first_at_bounds(rest@, '{', 0);
        }
        let open: usize = match find_char(rest.as_slice(), '{', 0) {
            Some(open) => open,
            None => {
                append_chars(&mut result, rest.as_slice());
                return from_chars(result.as_slice());
            },
        };
        proof {
            lemma_first_at_bounds(rest@, '}', open as int);
        }
        let close: usize = match find_char(rest.as_slice(), '}', open) {
            Some(close) => close,
            None => {
                append_chars(&mut result, rest.as_slice());
                return from_chars(result.as_slice());
            },
        };
        assert(open < close);
        let ghost before = result@;
        let spec: Vec<char> = slice_chars(rest.as_slice(), open + 1, close);
        append_chars(&mut result, slice_chars(rest.as_slice(), 0, open).as_slice());
        match parse_spec(&spec) {
            Some((index, width)) if index < values.len() => {
                append_chars(&mut result, padded_decimal_chars(values[index], width).as_slice());
            },
            _ => {
                append_chars(&mut result, slice_chars(rest.as_slice(), open, close + 1).as_slice());
                assert(rest@.subrange(open as int, close + 1) =~= seq!['{'] + spec@ + seq!['}']);
            },
        }
        let next: Vec<char> = slice_chars(rest.as_slice(), close + 1, len);
        proof {
            let head = rest@.subrange(0, open as int);
            let middle = substituted(spec@, values@);
            assert(result@ =~= before + head + middle);
            assert(result@ + formatted(next@, values@) =~= before + (head + middle + formatted(
                next@,
                values@,
            )));
        }
        rest = next;
    }
}

/// A template without braces stays as it is.
pub proof fn law_plain_text_is_unchanged(template: Seq<char>, values: Seq<i64>)
    requires
        !template.contains('{'),
    ensures
        formatted(template, values) == template,
{
    lemma_first_at_bounds(template, '{', 0);
}

/// Every opening brace is followed by a closing one.
pub open spec fn braces_close(text: Seq<char>) -> bool {
    forall|i: int|
        0 <= i < text.len() && #[trigger] text[i] == '{' ==> exists|j: int|
            i < j < text.len() && #[trigger] text[j] == '}'
}

proof fn lemma_first_at_within(text: Seq<char>, more: Seq<char>, character: char, from: int)
    requires
        0 <= from <= text.len(),
    ensures
        first_at(text, character, from) is Some ==> first_at(text + more, character, from)
            == first_at(text, character, from),
        first_at(text, character, from) is None ==> forall|i: int|
            from <= i < text.len() ==> #[trigger] text[i] != character,
    decreases text.len() - from,
{
    if from < text.len() {
        assert((text + more)[from] == text[from]);
        if text[from] != character {
            lemma_first_at_within(text, more, character, from + 1);
        }
    }
}

proof fn lemma_first_at_behind(text: Seq<char>, more: Seq<char>, character: char, from: int)
    requires
        0 <= from <= text.len(),
        forall|i: int| from <= i < text.len() ==> #[trigger] text[i] != character,
    ensures
        first_at(text + more, character, from) == match first_at(more, character, 0) {
            Some(at) => Some(at + text.len()),
            None => None,
        },
    decreases text.len() - from,
{
    if from < text.len() {
        assert((text + more)[from] == text[from]);
        lemma_first_at_behind(text, more, character, from + 1);
    } else {
        lemma_first_at_moved(text, more, character, 0);
    }
}

proof fn lemma_first_at_moved(text: Seq<char>, more: Seq<char>, character: char, from: int)
    requires
        0 <= from <= more.len(),
    ensures
        first_at(text + more, character, text.len() + from) == match first_at(
            more,
            character,
            from,
        ) {
            Some(at) => Some(at + text.len()),
            None => None,
        },
    decreases more.len() - from,
{
    if from < more.len() {
        assert((text + more)[text.len() + from] == more[from]);
        if more[from] != character {
            lemma_first_at_moved(text, more, character, from + 1);
        }
    }
}

/// A template can be formatted in parts, split anywhere outside a placeholder.
pub proof fn law_template_formats_in_parts(first: Seq<char>, second: Seq<char>, values: Seq<i64>)
    requires
        braces_close(first),
    ensures
        formatted(first + second, values) == formatted(first, values) + formatted(second, values),
    decreases first.len(),
{
    let whole = first + second;
    lemma_first_at_within(first, second, '{', 0);
    lemma_first_at_bounds(first, '{', 0);
    match first_at(first, '{', 0) {
        None => {
            lemma_first_at_behind(first, second, '{', 0);
            lemma_first_at_bounds(second, '{', 0);
            match first_at(second, '{', 0) {
                None => {},
                Some(open) => {
                    lemma_first_at_moved(first, second, '}', open);
                    lemma_first_at_bounds(second, '}', open);
                    match first_at(second, '}', open) {
                        None => {},
                        Some(close) => {
                            let at = first.len() as int;
                            assert(whole.subrange(0, at + open) =~= first + second.subrange(
                                0,
                                open,
                            ));
                            assert(whole.subrange(at + open + 1, at + close) =~= second.subrange(
                                open + 1,
                                close,
                            ));
                            assert(whole.subrange(at + close + 1, whole.len() as int)
                                =~= second.subrange(close + 1, second.len() as int));
                            assert(formatted(whole, values) =~= first + formatted(second, values));
                        },
                    }
                },
            }
        },
        Some(open) => {
            lemma_first_at_within(first, second, '}', open);
            lemma_first_at_bounds(first, '}', open);
            if first_at(first, '}', open) is None {
                let j = choose|j: int| open < j < first.len() && #[trigger] first[j] == '}';
                assert(first[j] != '}');
            }
            let close = first_at(first, '}', open)->0;
            let rest = first.subrange(close + 1, first.len() as int);
            assert(open < close);
            assert(whole.subrange(0, open) =~= first.subrange(0, open));
            assert(whole.subrange(open + 1, close) =~= first.subrange(open + 1, close));
            assert(whole.subrange(close + 1, whole.len() as int) =~= rest + second);
            assert(braces_close(rest)) by {
                assert forall|i: int| 0 <= i < rest.len() && #[trigger] rest[i] == '{' implies exists|
                    j: int,
                |
                    i < j < rest.len() && #[trigger] rest[j] == '}' by {
                    assert(first[i + close + 1] == '{');
                    let j = choose|j: int|
                        i + close + 1 < j < first.len() && #[trigger] first[j] == '}';
                    assert(rest[j - close - 1] == '}');
                }
            }
            law_template_formats_in_parts(rest, second, values);
            let head = first.subrange(0, open) + substituted(
                first.subrange(open + 1, close),
                values,
            );
            assert(formatted(whole, values) =~= formatted(first, values) + formatted(
                second,
                values,
            ));
        },
    }
}

} // verus!
