//! Sample rates as capture files write them.

use vstd::prelude::*;

use crate::text::{exec_is_white_space, is_white_space, same_chars, slice_chars, to_chars};

verus! {

/// Where the white space that starts at a place ends.
pub open spec fn white_end(text: Seq<char>, from: int) -> int
    decreases text.len() - from,
{
    if 0 <= from < text.len() && is_white_space(text[from]) {
        white_end(text, from + 1)
    } else {
        from
    }
}

/// Where the word that starts at a place ends.
pub open spec fn word_end(text: Seq<char>, from: int) -> int
    decreases text.len() - from,
{
    if 0 <= from < text.len() && !is_white_space(text[from]) {
        word_end(text, from + 1)
    } else {
        from
    }
}

/// The hertz that a unit stands for.
pub open spec fn unit_hertz(unit: Seq<char>) -> Option<u32> {
    if unit == "GHz"@ {
        Some(1_000_000_000)
    } else if unit == "MHz"@ {
        Some(1_000_000)
    } else if unit == "KHz"@ || unit == "kHz"@ {
        Some(1_000)
    } else if unit == "Hz"@ {
        Some(1)
    } else {
        None
    }
}

/// The number and the unit of a rate: its first two words. Further words are ignored.
pub open spec fn spec_rate_parts(rate: Seq<char>) -> Option<(Seq<char>, u32)> {
    let number_start = white_end(rate, 0);
    let number_end = word_end(rate, number_start);
    let unit_start = white_end(rate, number_end);
    let unit_end = word_end(rate, unit_start);
    match unit_hertz(rate.subrange(unit_start, unit_end)) {
        Some(hertz) => if number_start < number_end {
            Some((rate.subrange(number_start, number_end), hertz))
        } else {
            None
        },
        None => None,
    }
}

fn skip_white(text: &[char], from: usize) -> (result: usize)
    requires
        from <= text@.len(),
    ensures
        result == white_end(text@, from as int),
        from <= result <= text@.len(),
{
    let mut at: usize = from;
    while at < text.len() && exec_is_white_space(text[at])
        invariant
            from <= at <= text@.len(),
            white_end(text@, from as int) == white_end(text@, at as int),
        decreases text@.len() - at,
    {
        at += 1;
    }
    at
}

fn skip_word(text: &[char], from: usize) -> (result: usize)
    requires
        from <= text@.len(),
    ensures
        result == word_end(text@, from as int),
        from <= result <= text@.len(),
{
    let mut at: usize = from;
    while at < text.len() && !exec_is_white_space(text[at])
        invariant
            from <= at <= text@.len(),
            word_end(text@, from as int) == word_end(text@, at as int),
        decreases text@.len() - at,
    {
        at += 1;
    }
    at
}

fn hertz_of(unit: &[char]) -> (result: Option<u32>)
    ensures
        result == unit_hertz(unit@),
{
    if same_chars(unit, to_chars("GHz").as_slice()) {
        Some(1_000_000_000)
    } else if same_chars(unit, to_chars("MHz").as_slice()) {
        Some(1_000_000)
    } else if same_chars(unit, to_chars("KHz").as_slice()) || same_chars(
        unit,
        to_chars("kHz").as_slice(),
    ) {
        Some(1_000)
    } else if same_chars(unit, to_chars("Hz").as_slice()) {
        Some(1)
    } else {
        None
    }
}

/// Takes a rate such as `50 MHz` apart: its number, as it is written, and the hertz of its unit.
pub fn rate_parts(rate: &[char]) -> (result: Option<(Vec<char>, u32)>)
    ensures
        match result {
            Some((number, hertz)) => spec_rate_parts(rate@) == Some((number@, hertz)),
            None => spec_rate_parts(rate@) is None,
        },
{
    let number_start: usize = skip_white(rate, 0);
    let number_end: usize = skip_word(rate, number_start);
    let unit_start: usize = skip_white(rate, number_end);
    let unit_end: usize = skip_word(rate, unit_start);
    let unit: Vec<char> = slice_chars(rate, unit_start, unit_end);
    match hertz_of(unit.as_slice()) {
        Some(hertz) => {
            if number_start < number_end {
                Some((slice_chars(rate, number_start, number_end), hertz))
            } else {
                None
            }
        },
        None => None,
    }
}

} // verus!
