//! What the texts of capture files mean.

use vstd::prelude::*;
use vstd::utf8::encode_utf8;
use vstd::arithmetic::power2::pow2;

use super::cache::{place_of, recent, touched, CachedView};
use super::dsl::{
    block_file, block_level, fields_after, given_name, missing_field, named_probe, place_in_blocks,
    with_line, FieldsView,
};
use super::identity::{identifying_bytes, joined_texts, stamp_bytes, FileStamp};
use super::ini::{
    assignment, assignments, is_first_section, opened_section, precedes, qualifies, section_after,
    value_of, EntryView,
};
use super::metadata::{CaptureMetadata, MetadataView};
use super::rate::{spec_rate_parts, unit_hertz, white_end, word_end};
use super::sigrok::{layout_of, part_number, probe_name, trigger_of};
use crate::bit_laws::{bytes_number, law_bytes_make_their_number};
use crate::little_endian::le_bytes;
use crate::paths::law_renamed_file_stays_in_its_directory;
use crate::text::{decimal, first_at, first_text, is_white_space, parsed_unsigned};
use crate::text_laws::{
    all_white, law_decimal_reads_back, law_first_place_of_a_character, law_first_place_of_a_pattern,
    law_prefix_comes_off, law_trimming_finds_the_text, law_unsigned_number_reads_back,
};

verus! {

/// Of several assignments of a key in a section the last one counts, and without one there is no
/// value.
pub proof fn law_last_assignment_counts(
    entries: Seq<EntryView>,
    section: Seq<char>,
    key: Seq<char>,
)
    ensures
        match value_of(entries, section, key) {
            Some(value) => exists|i: int|
                0 <= i < entries.len() && (#[trigger] entries[i]).section == section && entries[i].key
                    == key && entries[i].value == value && forall|later: int|
                    i < later < entries.len() ==> (#[trigger] entries[later]).section != section
                        || entries[later].key != key,
            None => forall|i: int|
                0 <= i < entries.len() ==> (#[trigger] entries[i]).section != section
                    || entries[i].key != key,
        },
    decreases entries.len(),
{
    if entries.len() > 0 {
        let front = entries.drop_last();
        let end = entries.len() - 1;
        if entries[end].section == section && entries[end].key == key {
        } else {
            law_last_assignment_counts(front, section, key);
            match value_of(front, section, key) {
                Some(value) => {
                    let i = choose|i: int|
                        0 <= i < front.len() && (#[trigger] front[i]).section == section
                            && front[i].key == key && front[i].value == value && forall|later: int|
                            i < later < front.len() ==> (#[trigger] front[later]).section != section
                                || front[later].key != key;
                    assert(entries[i] == front[i]);
                    assert forall|later: int| i < later < entries.len() implies (
                    #[trigger] entries[later]).section != section || entries[later].key != key by {
                        if later < front.len() {
                            assert(front[later] == entries[later]);
                        }
                    }
                },
                None => {
                    assert forall|i: int| 0 <= i < entries.len() implies (
                    #[trigger] entries[i]).section != section || entries[i].key != key by {
                        if i < front.len() {
                            assert(front[i] == entries[i]);
                        }
                    }
                },
            }
        }
    }
}

/// Whether a text has something and white space neither at its front nor at its back.
pub open spec fn is_trim(text: Seq<char>) -> bool {
    text.len() > 0 && !is_white_space(text[0]) && !is_white_space(text.last())
}

/// A key and a value on both sides of the first equals sign make an assignment, whatever white space
/// is between them and the sign.
pub proof fn law_assignment_of_a_line(
    section: Seq<char>,
    key: Seq<char>,
    before: Seq<char>,
    behind: Seq<char>,
    value: Seq<char>,
)
    requires
        is_trim(key),
        is_trim(value),
        all_white(before),
        all_white(behind),
        forall|i: int| 0 <= i < key.len() ==> #[trigger] key[i] != '=',
        key[0] != '#',
        key[0] != '[',
    ensures
        assignment(section, key + before + seq!['='] + behind + value) == Some(
            EntryView { section, key, value },
        ),
{
    let line = key + before + seq!['='] + behind + value;
    let at = (key.len() + before.len()) as int;
    law_first_place_of_a_character(line, '=', 0);
    assert(line[at] == '=');
    assert(line[0] == key[0]);
    assert forall|i: int| 0 <= i < at implies #[trigger] line[i] != '=' by {
        if i < key.len() {
            assert(line[i] == key[i]);
        } else {
            assert(line[i] == before[i - key.len()]);
            assert(is_white_space(before[i - key.len()]));
        }
    }
    assert(first_at(line, '=', 0) == Some(at));
    let none = Seq::<char>::empty();
    law_trimming_finds_the_text(none, key, before);
    law_trimming_finds_the_text(behind, value, none);
    assert(line.subrange(0, at) =~= none + key + before);
    assert(line.subrange(at + 1, line.len() as int) =~= behind + value + none);
}

/// A line in square brackets opens the section between them. Empty lines and comments assign
/// nothing.
pub proof fn law_other_lines(section: Seq<char>, name: Seq<char>, comment: Seq<char>)
    ensures
        opened_section(seq!['['] + name + seq![']']) == Some(name),
        assignment(section, seq!['['] + name + seq![']']) is None,
        assignment(section, seq!['#'] + comment) is None,
        assignment(section, Seq::empty()) is None,
{
    let line = seq!['['] + name + seq![']'];
    assert(line.subrange(1, line.len() - 1) =~= name);
    assert((seq!['#'] + comment)[0] == '#');
}

/// The section of a line is the one that was opened last before it, or none has been opened yet.
pub proof fn law_latest_section_holds(lines: Seq<Seq<char>>, count: nat)
    requires
        count <= lines.len(),
    ensures
        ({
            ||| section_after(lines, count).len() == 0 && forall|i: int|
                0 <= i < count ==> opened_section(#[trigger] lines[i]) is None
            ||| exists|i: int|
                0 <= i < count && opened_section(#[trigger] lines[i]) == Some(
                    section_after(lines, count),
                ) && forall|later: int|
                    i < later < count ==> opened_section(#[trigger] lines[later]) is None
        }),
    decreases count,
{
    if count > 0 {
        law_latest_section_holds(lines, (count - 1) as nat);
        if opened_section(lines[count - 1]) is Some {
            assert(opened_section(lines[count - 1]) == Some(section_after(lines, count)));
        }
    }
}

/// Every line that assigns something is there, in its section, and assignments keep their order.
pub proof fn law_every_assignment_is_there(lines: Seq<Seq<char>>, line: int, count: nat)
    requires
        0 <= line < count <= lines.len(),
    ensures
        assignments(lines, line as nat).is_prefix_of(assignments(lines, count)),
        match assignment(section_after(lines, line as nat), lines[line]) {
            Some(entry) => assignments(lines, line as nat).push(entry).is_prefix_of(
                assignments(lines, count),
            ),
            None => assignments(lines, (line + 1) as nat) == assignments(lines, line as nat),
        },
    decreases count,
{
    if line + 1 < count {
        law_every_assignment_is_there(lines, line, (count - 1) as nat);
    }
}

/// The order of texts is that of their first different characters; a text comes before its own
/// continuations.
pub proof fn law_texts_are_ordered_by_their_characters(left: Seq<char>, right: Seq<char>)
    ensures
        precedes(left, right) <==> exists|k: int|
            0 <= k <= left.len() && k < right.len() && left.take(k) == #[trigger] right.take(k) && (k
                == left.len() || left[k] < right[k]),
    decreases left.len(),
{
    if left.len() == 0 {
        if right.len() > 0 {
            assert(left.take(0) =~= right.take(0));
        }
    } else if right.len() > 0 {
        let l = left.skip(1);
        let r = right.skip(1);
        if left[0] != right[0] {
            if left[0] < right[0] {
                assert(left.take(0) =~= right.take(0));
            }
            assert forall|k: int|
                0 <= k <= left.len() && k < right.len() && left.take(k) == #[trigger] right.take(k)
                    implies k == 0 by {
                if k > 0 {
                    assert(left.take(k)[0] == left[0] && right.take(k)[0] == right[0]);
                }
            }
        } else {
            law_texts_are_ordered_by_their_characters(l, r);
            if precedes(l, r) {
                let k = choose|k: int|
                    0 <= k <= l.len() && k < r.len() && l.take(k) == #[trigger] r.take(k) && (k
                        == l.len() || l[k] < r[k]);
                assert(left.take(k + 1) =~= seq![left[0]] + l.take(k));
                assert(right.take(k + 1) =~= seq![right[0]] + r.take(k));
                assert(left.take(k + 1) == right.take(k + 1));
            }
            assert forall|k: int|
                0 <= k <= left.len() && k < right.len() && left.take(k) == #[trigger] right.take(k)
                    && (k == left.len() || left[k] < right[k]) implies precedes(left, right) by {
                assert(k > 0);
                assert(l.take(k - 1) =~= left.take(k).skip(1));
                assert(r.take(k - 1) =~= right.take(k).skip(1));
                assert(l.take(k - 1) == r.take(k - 1));
            }
        }
    }
}

/// Whether a text is a word: it has something and no white space.
pub open spec fn is_word(text: Seq<char>) -> bool {
    text.len() > 0 && forall|i: int| 0 <= i < text.len() ==> !is_white_space(#[trigger] text[i])
}

proof fn lemma_white_end(text: Seq<char>, from: int, to: int)
    requires
        0 <= from <= to <= text.len(),
        forall|i: int| from <= i < to ==> is_white_space(#[trigger] text[i]),
        to == text.len() || !is_white_space(text[to]),
    ensures
        white_end(text, from) == to,
    decreases to - from,
{
    if from < to {
        assert(is_white_space(text[from]));
        lemma_white_end(text, from + 1, to);
    }
}

proof fn lemma_word_end(text: Seq<char>, from: int, to: int)
    requires
        0 <= from <= to <= text.len(),
        forall|i: int| from <= i < to ==> !is_white_space(#[trigger] text[i]),
        to == text.len() || is_white_space(text[to]),
    ensures
        word_end(text, from) == to,
    decreases to - from,
{
    if from < to {
        assert(!is_white_space(text[from]));
        lemma_word_end(text, from + 1, to);
    }
}

/// A rate is its first word, as a number, times the hertz of the unit that is its second word.
/// White space in front and further words do not matter.
pub proof fn law_rate_is_a_number_and_a_unit(
    front: Seq<char>,
    number: Seq<char>,
    gap: Seq<char>,
    unit: Seq<char>,
    rest: Seq<char>,
)
    requires
        all_white(front),
        is_word(number),
        all_white(gap),
        gap.len() > 0,
        is_word(unit),
        rest.len() == 0 || is_white_space(rest[0]),
    ensures
        spec_rate_parts(front + number + gap + unit + rest) == match unit_hertz(unit) {
            Some(hertz) => Some((number, hertz)),
            None => None,
        },
{
    let rate = front + number + gap + unit + rest;
    let a = front.len() as int;
    let b = a + number.len();
    let c = b + gap.len();
    let d = c + unit.len();
    assert forall|i: int| 0 <= i < a implies is_white_space(#[trigger] rate[i]) by {
        assert(rate[i] == front[i]);
    }
    assert forall|i: int| a <= i < b implies !is_white_space(#[trigger] rate[i]) by {
        assert(rate[i] == number[i - a]);
    }
    assert forall|i: int| b <= i < c implies is_white_space(#[trigger] rate[i]) by {
        assert(rate[i] == gap[i - b]);
    }
    assert forall|i: int| c <= i < d implies !is_white_space(#[trigger] rate[i]) by {
        assert(rate[i] == unit[i - c]);
    }
    if rest.len() > 0 {
        assert(rate[d] == rest[0]);
    }
    lemma_white_end(rate, 0, a);
    lemma_word_end(rate, a, b);
    lemma_white_end(rate, b, c);
    lemma_word_end(rate, c, d);
    assert(rate.subrange(a, b) =~= number);
    assert(rate.subrange(c, d) =~= unit);
}

/// Each unit is a thousand of the one below it, from one hertz on, and nothing else is a unit.
pub proof fn law_units_of_a_rate(unit: Seq<char>)
    ensures
        unit_hertz("Hz"@) == Some(1u32),
        unit_hertz("kHz"@) == Some((1_000 * unit_hertz("Hz"@)->0) as u32),
        unit_hertz("KHz"@) == unit_hertz("kHz"@),
        unit_hertz("MHz"@) == Some((1_000 * unit_hertz("kHz"@)->0) as u32),
        unit_hertz("GHz"@) == Some((1_000 * unit_hertz("MHz"@)->0) as u32),
        unit_hertz(unit) is Some <==> unit == "Hz"@ || (unit.len() == 3 && unit.skip(1) == "Hz"@ && (
        unit[0] == 'k' || unit[0] == 'K' || unit[0] == 'M' || unit[0] == 'G')),
{
    reveal_strlit("Hz");
    reveal_strlit("kHz");
    reveal_strlit("KHz");
    reveal_strlit("MHz");
    reveal_strlit("GHz");
    assert("GHz"@[0] == 'G' && "MHz"@[0] == 'M' && "KHz"@[0] == 'K' && "kHz"@[0] == 'k' && "Hz"@[0]
        == 'H');
    assert("GHz"@.skip(1) =~= "Hz"@ && "MHz"@.skip(1) =~= "Hz"@ && "KHz"@.skip(1) =~= "Hz"@
        && "kHz"@.skip(1) =~= "Hz"@);
    if unit.len() == 3 && unit.skip(1) == "Hz"@ {
        assert(unit[1] == unit.skip(1)[0] && unit[2] == unit.skip(1)[1]);
        if unit[0] == 'k' {
            assert(unit =~= "kHz"@);
        } else if unit[0] == 'K' {
            assert(unit =~= "KHz"@);
        } else if unit[0] == 'M' {
            assert(unit =~= "MHz"@);
        } else if unit[0] == 'G' {
            assert(unit =~= "GHz"@);
        }
    }
}

/// A sample is found where its block begins plus its place in it, and exactly the samples that the
/// header counts are found.
pub proof fn law_sample_is_in_its_block(header: CaptureMetadata, position: u64)
    requires
        0 < header.samples_per_block,
    ensures
        place_in_blocks(header, position) matches Some((block, offset)) ==> {
            &&& block * header.samples_per_block + offset == position
            &&& 0 <= offset < header.samples_per_block
            &&& block < header.total_blocks
        },
        place_in_blocks(header, position) is Some <==> position < header.total_samples && position
            < header.total_blocks * header.samples_per_block,
{
    let size = header.samples_per_block as int;
    let block = position as int / size;
    let blocks = header.total_blocks as int;
    vstd::arithmetic::div_mod::lemma_fundamental_div_mod(position as int, size);
    assert(block * size == size * block) by (nonlinear_arith);
    assert(block < blocks <==> position < blocks * size) by (nonlinear_arith)
        requires
            position == size * block + position as int % size,
            0 <= position as int % size < size,
    ;
}

/// A block holds its samples as binary digits, and what lies beyond its end is low.
pub proof fn law_block_level(data: Seq<u8>, place: int)
    requires
        0 <= place,
    ensures
        block_level(data, place) <==> crate::bit_laws::number_bit(
            bytes_number(data) as int,
            place as nat,
        ),
{
    if place < 8 * data.len() {
        crate::bit_laws::law_packed_bits_are_binary_digits(data, place);
    } else {
        lemma_number_fits(data);
        vstd::arithmetic::power2::lemma_pow2_pos(place as nat);
        if 8 * data.len() < place {
            vstd::arithmetic::power2::lemma_pow2_strictly_increases(8 * data.len(), place as nat);
        }
        vstd::arithmetic::div_mod::lemma_basic_div(
            bytes_number(data) as int,
            pow2(place as nat) as int,
        );
    }
}

proof fn lemma_number_fits(data: Seq<u8>)
    ensures
        bytes_number(data) < pow2(8 * data.len()),
    decreases data.len(),
{
    vstd::arithmetic::power2::lemma2_to64();
    if data.len() > 0 {
        let rest = data.skip(1);
        lemma_number_fits(rest);
        vstd::arithmetic::power2::lemma_pow2_adds(8, 8 * rest.len());
        assert(8 * data.len() == 8 + 8 * rest.len());
    }
}

/// A line of a header that gives a number or a text sets its own field and leaves the others.
pub proof fn law_header_lines(fields: FieldsView, number: u64, size: usize, text: Seq<char>)
    ensures
        with_line(fields, "total probes = "@ + decimal(size as nat)) == (FieldsView {
            total_probes: Some(size),
            ..fields
        }),
        with_line(fields, "samplerate = "@ + text) == (FieldsView {
            samplerate: Some(text),
            ..fields
        }),
        with_line(fields, "total samples = "@ + decimal(number as nat)) == (FieldsView {
            total_samples: Some(number),
            ..fields
        }),
        with_line(fields, "total blocks = "@ + decimal(number as nat)) == (FieldsView {
            total_blocks: Some(number),
            ..fields
        }),
        with_line(fields, "trigger sample = "@ + decimal(number as nat)) == (FieldsView {
            trigger_sample: Some(number),
            ..fields
        }),
{
    reveal_strlit("total probes = ");
    reveal_strlit("samplerate = ");
    reveal_strlit("total samples = ");
    reveal_strlit("total blocks = ");
    reveal_strlit("trigger sample = ");
    law_unsigned_number_reads_back(size as nat, usize::MAX as int);
    law_unsigned_number_reads_back(number as nat, u64::MAX as int);
    let written = decimal(number as nat);
    let a = "total probes = "@ + decimal(size as nat);
    let b = "samplerate = "@ + text;
    let c = "total samples = "@ + written;
    let d = "total blocks = "@ + written;
    let e = "trigger sample = "@ + written;
    law_prefix_comes_off(a, "total probes = "@, decimal(size as nat));
    law_prefix_comes_off(b, "samplerate = "@, text);
    law_prefix_comes_off(c, "total samples = "@, written);
    law_prefix_comes_off(d, "total blocks = "@, written);
    law_prefix_comes_off(e, "trigger sample = "@, written);
    assert(b[0] == 's' && "total probes = "@[0] == 't' && c[0] == 't' && "samplerate = "@[0] == 's');
    assert(c[6] == 's' && "total probes = "@[6] == 'p');
    assert(d[0] == 't' && d[6] == 'b' && "total samples = "@[6] == 's');
    assert(e[0] == 't' && e[1] == 'r' && "total probes = "@[1] == 'o' && "total samples = "@[1] == 'o'
        && "total blocks = "@[1] == 'o');
}

/// A line that names a probe gives that name to the probe with that number.
pub proof fn law_probe_line(fields: FieldsView, probe: usize, name: Seq<char>)
    ensures
        with_line(fields, "probe"@ + decimal(probe as nat) + " = "@ + name) == (FieldsView {
            probe_names: fields.probe_names.push((probe, name)),
            ..fields
        }),
{
    reveal_strlit("total probes = ");
    reveal_strlit("samplerate = ");
    reveal_strlit("total samples = ");
    reveal_strlit("total blocks = ");
    reveal_strlit("trigger sample = ");
    reveal_strlit("probe");
    reveal_strlit(" = ");
    let digits = decimal(probe as nat);
    let line = "probe"@ + digits + " = "@ + name;
    law_decimal_reads_back(probe as nat);
    law_unsigned_number_reads_back(probe as nat, usize::MAX as int);
    assert(line[0] == 'p' && "total probes = "@[0] == 't' && "samplerate = "@[0] == 's'
        && "total samples = "@[0] == 't' && "total blocks = "@[0] == 't' && "trigger sample = "@[0]
        == 't');
    let at = 5 + digits.len() as int;
    law_first_place_of_a_pattern(line, " = "@, 0);
    assert(line.subrange(at, at + 3) =~= " = "@);
    assert forall|i: int| 0 <= i < at implies #[trigger] line.subrange(i, i + 3) != " = "@ by {
        assert(line.subrange(i, i + 3)[0] == line[i]);
        if i < 5 {
            assert(line[i] == "probe"@[i]);
        } else {
            assert(line[i] == digits[i - 5]);
        }
        assert(" = "@[0] == ' ');
    }
    assert(first_text(line, " = "@, 0) == Some(at));
    assert(line.subrange(0, at) =~= "probe"@ + digits);
    law_prefix_comes_off(line, "probe"@, digits);
    assert(line.skip(at + 3) =~= name);
    assert(named_probe(line) == Some((probe, name)));
}

/// Of several names for a probe the last one counts.
pub proof fn law_last_name_counts(names: Seq<(usize, Seq<char>)>, probe: usize)
    ensures
        match given_name(names, probe) {
            Some(name) => exists|i: int|
                0 <= i < names.len() && #[trigger] names[i] == (probe, name) && forall|later: int|
                    i < later < names.len() ==> (#[trigger] names[later]).0 != probe,
            None => forall|i: int| 0 <= i < names.len() ==> (#[trigger] names[i]).0 != probe,
        },
    decreases names.len(),
{
    if names.len() > 0 && names.last().0 != probe {
        let front = names.drop_last();
        law_last_name_counts(front, probe);
        match given_name(front, probe) {
            Some(name) => {
                let i = choose|i: int|
                    0 <= i < front.len() && #[trigger] front[i] == (probe, name) && forall|later: int|
                        i < later < front.len() ==> (#[trigger] front[later]).0 != probe;
                assert(names[i] == front[i]);
                assert forall|later: int| i < later < names.len() implies (
                #[trigger] names[later]).0 != probe by {
                    if later < front.len() {
                        assert(front[later] == names[later]);
                    }
                }
            },
            None => {
                assert forall|i: int| 0 <= i < names.len() implies (#[trigger] names[i]).0 != probe by {
                    if i < front.len() {
                        assert(front[i] == names[i]);
                    }
                }
            },
        }
    } else if names.len() > 0 {
        assert(names[names.len() - 1] == (probe, names.last().1));
    }
}

/// Two blocks have the same file name only where channel and block are the same.
pub proof fn law_block_files_differ(
    channel: usize,
    block: u64,
    other_channel: usize,
    other_block: u64,
)
    requires
        block_file(channel, block) == block_file(other_channel, other_block),
    ensures
        channel == other_channel,
        block == other_block,
{
    reveal_strlit("L-");
    reveal_strlit("/");
    let a = decimal(channel as nat);
    let b = decimal(other_channel as nat);
    let c = decimal(block as nat);
    let d = decimal(other_block as nat);
    let name = block_file(channel, block);
    law_decimal_reads_back(channel as nat);
    law_decimal_reads_back(other_channel as nat);
    law_decimal_reads_back(block as nat);
    law_decimal_reads_back(other_block as nat);
    assert(name[2 + a.len() as int] == '/');
    assert(name[2 + b.len() as int] == '/');
    if a.len() < b.len() {
        assert(name[2 + a.len() as int] == b[a.len() as int]);
    } else if b.len() < a.len() {
        assert(name[2 + b.len() as int] == a[b.len() as int]);
    }
    let l = a.len() as int;
    assert(name.subrange(2, 2 + l) =~= a);
    assert(name.subrange(2, 2 + l) =~= b);
    assert(name.skip(3 + l) =~= c);
    assert(name.skip(3 + l) =~= d);
}

/// The sample files of a session are the one with its name and those with a number behind it, in the
/// order of these numbers.
pub proof fn law_numbered_part(capturefile: Seq<char>, number: u64)
    ensures
        part_number(capturefile, capturefile) == Some(0int),
        part_number(capturefile, capturefile + "-"@ + decimal(number as nat)) == Some(number as int),
{
    reveal_strlit("-");
    let name = capturefile + "-"@ + decimal(number as nat);
    law_unsigned_number_reads_back(number as nat, u64::MAX as int);
    law_prefix_comes_off(name, capturefile + "-"@, decimal(number as nat));
    assert(name.len() > capturefile.len());
}

/// The keys of probe names count from one, the probes from zero.
pub proof fn law_probe_keys_count_from_one(
    entries: Seq<EntryView>,
    device: Seq<char>,
    key: nat,
    name: Seq<char>,
)
    requires
        key >= 1,
    ensures
        value_of(entries, device, "probe"@ + decimal(key)) == Some(name) ==> probe_name(
            entries,
            device,
            key - 1,
        ) == name,
        value_of(entries, device, "probe"@ + decimal(key)) is None ==> probe_name(
            entries,
            device,
            key - 1,
        ) == "Probe "@ + decimal((key - 1) as nat),
{
}

/// A layout is read only where every field is there, the probes fit the samples and are as many as
/// asked for, and then it holds those fields.
pub proof fn law_layout_holds_the_fields(entries: Seq<EntryView>, minimum: u8)
    ensures
        layout_of(entries, minimum) matches Ok(layout) ==> {
            let device = layout.device;
            &&& value_of(entries, device, "capturefile"@) == Some(layout.capturefile)
            &&& value_of(entries, device, "samplerate"@) == Some(layout.samplerate)
            &&& value_of(entries, device, "total probes"@) matches Some(probes) && parsed_unsigned(
                probes,
                usize::MAX as int,
            ) == Some(layout.total_probes as int)
            &&& value_of(entries, device, "unitsize"@) matches Some(size) && parsed_unsigned(
                size,
                usize::MAX as int,
            ) == Some(layout.unitsize as int)
            &&& 1 <= layout.total_probes <= 8 * layout.unitsize
            &&& layout.total_probes >= minimum
        },
{
    match super::sigrok::device_section(entries) {
        Some(device) => {
            let probes = value_of(entries, device, "total probes"@);
            let size = value_of(entries, device, "unitsize"@);
            if probes is Some && size is Some {
                lemma_parsed_fits(probes->0);
                lemma_parsed_fits(size->0);
            }
        },
        None => {},
    }
}

proof fn lemma_parsed_fits(text: Seq<char>)
    ensures
        parsed_unsigned(text, usize::MAX as int) matches Some(value) ==> 0 <= value <= usize::MAX,
{
    let digits = if text.len() > 0 && text[0] == '+' {
        text.skip(1)
    } else {
        text
    };
    crate::text_laws::law_digits_weigh_ten(digits, '0');
}

/// A trigger sample is the number that stands in its field, none where the field is missing, and an
/// error where the field is no number.
pub proof fn law_trigger_field(entries: Seq<EntryView>, device: Seq<char>, sample: u64)
    ensures
        value_of(entries, device, "trigger sample"@) == Some(decimal(sample as nat)) ==> trigger_of(
            entries,
            device,
        ) == Ok::<Option<u64>, super::error::FileErrorView>(Some(sample)),
        trigger_of(entries, device) == Ok::<Option<u64>, super::error::FileErrorView>(None)
            <==> value_of(entries, device, "trigger sample"@) is None,
        trigger_of(entries, device) is Err <==> (value_of(
            entries,
            device,
            "trigger sample"@,
        ) matches Some(text) && parsed_unsigned(text, u64::MAX as int) is None),
{
    law_unsigned_number_reads_back(sample as nat, u64::MAX as int);
}

/// A block that was used is the most recent one; all others stay, in their order.
pub proof fn law_used_block_is_most_recent(blocks: Seq<CachedView>, place: int)
    requires
        0 <= place < blocks.len(),
    ensures
        touched(blocks, place).last() == blocks[place],
        touched(blocks, place).len() == blocks.len(),
        forall|i: int| 0 <= i < place ==> #[trigger] touched(blocks, place)[i] == blocks[i],
        forall|i: int|
            place <= i < blocks.len() - 1 ==> #[trigger] touched(blocks, place)[i] == blocks[i + 1],
{
}

/// A block is found where the cache has it, and not found where it does not.
pub proof fn law_block_is_found_where_it_is(blocks: Seq<CachedView>, channel: usize, block: u64)
    ensures
        match place_of(blocks, channel, block) {
            Some(place) => 0 <= place < blocks.len() && blocks[place].channel == channel
                && blocks[place].block == block,
            None => forall|i: int|
                0 <= i < blocks.len() ==> (#[trigger] blocks[i]).channel != channel
                    || blocks[i].block != block,
        },
    decreases blocks.len(),
{
    if blocks.len() > 0 && !(blocks.last().channel == channel && blocks.last().block == block) {
        let front = blocks.drop_last();
        law_block_is_found_where_it_is(front, channel, block);
        match place_of(front, channel, block) {
            Some(place) => {
                assert(front[place] == blocks[place]);
            },
            None => {
                assert forall|i: int| 0 <= i < blocks.len() implies (
                #[trigger] blocks[i]).channel != channel || blocks[i].block != block by {
                    if i < front.len() {
                        assert(front[i] == blocks[i]);
                    }
                }
            },
        }
    }
}

/// The index of a capture stands beside it, under its name with a suffix.
pub proof fn law_index_stands_beside_the_capture(directory: Seq<char>, name: Seq<char>)
    requires
        directory.len() > 0,
        directory.last() != '/',
        !(directory.len() > 1 && directory.last() == '.' && directory[directory.len() - 2] == '/'),
        name.len() > 0,
        name != seq!['.', '.'],
        name != seq!['.'],
        forall|i: int| 0 <= i < name.len() ==> #[trigger] name[i] != '/',
    ensures
        super::sigrok::sidecar_of(directory + seq!['/'] + name) == directory + seq!['/'] + (name
            + ".idx"@),
        super::dsl::sidecar_of(directory + seq!['/'] + name) == directory + seq!['/'] + (name
            + ".idx"@),
{
    law_renamed_file_stays_in_its_directory(directory, name, name + ".idx"@);
}

/// The number at a place of some bytes.
pub open spec fn number_at(bytes: Seq<u8>, at: int, count: int) -> nat {
    bytes_number(bytes.subrange(at, at + count))
}

/// What identifies a capture can be taken apart again: the path comes first, then revision, bits of
/// the rate, samples and probes, eight bytes each, then what the file system says, then the names.
pub proof fn law_identity_can_be_taken_apart(
    path: Seq<char>,
    revision: u64,
    rate_bits: u64,
    metadata: MetadataView,
    stamp: Option<FileStamp>,
)
    ensures
        ({
            let bytes = identifying_bytes(path, revision, rate_bits, metadata, stamp);
            let at = encode_utf8(path).len() as int;
            let names = encode_utf8(path).len() + 32 + stamp_bytes(stamp).len();
            &&& bytes.take(at) == encode_utf8(path)
            &&& number_at(bytes, at, 8) == revision
            &&& number_at(bytes, at + 8, 8) == rate_bits
            &&& number_at(bytes, at + 16, 8) == metadata.total_samples
            &&& number_at(bytes, at + 24, 8) == metadata.total_probes
            &&& stamp is Some ==> number_at(bytes, at + 32, 8) == stamp->0.len
            &&& stamp is Some && stamp->0.modified_ns is Some ==> number_at(bytes, at + 40, 16)
                == stamp->0.modified_ns->0
            &&& bytes.skip(names as int) == joined_texts(metadata.probe_names)
        }),
{
    vstd::arithmetic::power2::lemma2_to64();
    vstd::arithmetic::power2::lemma_pow2_adds(64, 64);
    assert(pow2(64) == 0x1_0000_0000_0000_0000);
    assert(pow2(128) > u128::MAX) by (nonlinear_arith)
        requires
            pow2(64) == 0x1_0000_0000_0000_0000,
            pow2(128) == pow2(64) * pow2(64),
    ;
    let bytes = identifying_bytes(path, revision, rate_bits, metadata, stamp);
    let at = encode_utf8(path).len() as int;
    let a = le_bytes(revision as nat, 8);
    let b = le_bytes(rate_bits as nat, 8);
    let c = le_bytes(metadata.total_samples as nat, 8);
    let d = le_bytes(metadata.total_probes as nat, 8);
    let e = stamp_bytes(stamp);
    law_bytes_make_their_number(revision as nat, 8);
    law_bytes_make_their_number(rate_bits as nat, 8);
    law_bytes_make_their_number(metadata.total_samples as nat, 8);
    law_bytes_make_their_number(metadata.total_probes as nat, 8);
    vstd::arithmetic::div_mod::lemma_small_mod(revision as nat, pow2(64));
    vstd::arithmetic::div_mod::lemma_small_mod(rate_bits as nat, pow2(64));
    vstd::arithmetic::div_mod::lemma_small_mod(metadata.total_samples as nat, pow2(64));
    vstd::arithmetic::div_mod::lemma_small_mod(metadata.total_probes as nat, pow2(64));
    assert(bytes.take(at) =~= encode_utf8(path));
    assert(bytes.subrange(at, at + 8) =~= a);
    assert(bytes.subrange(at + 8, at + 16) =~= b);
    assert(bytes.subrange(at + 16, at + 24) =~= c);
    assert(bytes.subrange(at + 24, at + 32) =~= d);
    assert(bytes.skip(at + 32 + e.len()) =~= joined_texts(metadata.probe_names));
    assert(number_at(bytes, at, 8) == revision);
    assert(number_at(bytes, at + 8, 8) == rate_bits);
    assert(number_at(bytes, at + 16, 8) == metadata.total_samples);
    assert(number_at(bytes, at + 24, 8) == metadata.total_probes);
    match stamp {
        Some(seen) => {
            law_bytes_make_their_number(seen.len as nat, 8);
            vstd::arithmetic::div_mod::lemma_small_mod(seen.len as nat, pow2(64));
            assert(e.subrange(0, 8) =~= le_bytes(seen.len as nat, 8));
            assert(bytes.subrange(at + 32, at + 40) =~= le_bytes(seen.len as nat, 8));
            assert(number_at(bytes, at + 32, 8) == seen.len);
            match seen.modified_ns {
                Some(time) => {
                    law_bytes_make_their_number(time as nat, 16);
                    vstd::arithmetic::div_mod::lemma_small_mod(time as nat, pow2(128));
                    assert(e.subrange(8, 24) =~= le_bytes(time as nat, 16));
                    assert(bytes.subrange(at + 40, at + 56) =~= le_bytes(time as nat, 16));
                    assert(number_at(bytes, at + 40, 16) == time);
                },
                None => {},
            }
        },
        None => {},
    }
}

/// Joined texts stand in their order: those of a first list, then those of a second.
pub proof fn law_joined_texts_keep_their_order(first: Seq<Seq<char>>, second: Seq<Seq<char>>)
    ensures
        joined_texts(first + second) == joined_texts(first) + joined_texts(second),
        first.len() == 1 ==> joined_texts(first) == encode_utf8(first[0]),
    decreases second.len(),
{
    if second.len() > 0 {
        law_joined_texts_keep_their_order(first, second.drop_last());
        assert((first + second).drop_last() =~= first + second.drop_last());
        assert((first + second).last() == second.last());
        assert(joined_texts(first + second) =~= joined_texts(first) + joined_texts(second));
    } else {
        assert(first + second =~= first);
        assert(joined_texts(first) + joined_texts(second) =~= joined_texts(first));
    }
    if first.len() == 1 {
        reveal_with_fuel(joined_texts, 2);
        assert(first.drop_last().len() == 0);
        assert(joined_texts(first) =~= encode_utf8(first[0]));
    }
}

/// The lines of a header count one after the other: what a further line says is added to what the
/// lines before it said.
pub proof fn law_header_lines_count_in_order(lines: Seq<Seq<char>>, line: Seq<char>)
    ensures
        fields_after(lines.push(line), (lines.len() + 1) as nat) == with_line(
            fields_after(lines, lines.len()),
            line,
        ),
{
    lemma_fields_of_the_front(lines, line, lines.len());
}

proof fn lemma_fields_of_the_front(lines: Seq<Seq<char>>, line: Seq<char>, count: nat)
    requires
        count <= lines.len(),
    ensures
        fields_after(lines.push(line), count) == fields_after(lines, count),
    decreases count,
{
    if count > 0 {
        lemma_fields_of_the_front(lines, line, (count - 1) as nat);
        assert(lines.push(line)[count - 1] == lines[count - 1]);
    }
}

/// The section that is looked for starts with the prefix and assigns the key, and no such section
/// comes before it in the order of their names; without any there is none.
pub proof fn law_first_section_with_a_key(
    entries: Seq<EntryView>,
    prefix: Seq<char>,
    key: Seq<char>,
    section: Option<Seq<char>>,
    other: Seq<char>,
)
    requires
        is_first_section(entries, prefix, key, section),
    ensures
        section matches Some(name) ==> prefix.len() <= name.len() && name.take(prefix.len() as int)
            == prefix && value_of(entries, name, key) is Some,
        prefix.is_prefix_of(other) && value_of(entries, other, key) is Some ==> section is Some
            && !precedes(other, section->0),
{
    if let Some(name) = section {
        assert(qualifies(entries, name, prefix, key));
        assert(name.take(prefix.len() as int) =~= prefix);
    }
    if prefix.is_prefix_of(other) && value_of(entries, other, key) is Some {
        assert(qualifies(entries, other, prefix, key));
    }
}

/// A cache keeps its most recent blocks, and no more of them than its limit; it lets none go while it
/// has room.
pub proof fn law_cache_stays_within_its_limit(blocks: Seq<CachedView>, max: int, age: int)
    requires
        0 <= max,
        0 < age <= blocks.len(),
    ensures
        recent(blocks, max).len() <= max,
        recent(blocks, max).len() == max || recent(blocks, max).len() == blocks.len(),
        age <= max ==> recent(blocks, max).len() >= age && recent(blocks, max)[recent(
            blocks,
            max,
        ).len() - age] == blocks[blocks.len() - age],
{
}

/// A header needs the numbers of probes, samples and blocks, and the sample rate; it needs no more.
pub proof fn law_header_needs_four_fields(fields: FieldsView)
    ensures
        missing_field(fields) is None <==> fields.total_probes is Some && fields.samplerate is Some
            && fields.total_samples is Some && fields.total_blocks is Some,
{
}

/// A probe that was given no name is named by its number.
pub proof fn law_unnamed_probe_has_its_number(names: Seq<(usize, Seq<char>)>, probe: usize)
    ensures
        given_name(names, probe) matches Some(name) ==> super::dsl::probe_name(names, probe as int) == name,
        given_name(names, probe) is None ==> super::dsl::probe_name(names, probe as int).take(5) == seq![
            'P',
            'r',
            'o',
            'b',
            'e',
        ] && super::dsl::probe_name(names, probe as int).skip(5) == decimal(probe as nat),
{
    reveal_strlit("Probe");
    if given_name(names, probe) is None {
        let name = super::dsl::probe_name(names, probe as int);
        assert(name.take(5) =~= seq!['P', 'r', 'o', 'b', 'e']);
        assert(name.skip(5) =~= decimal(probe as nat));
    }
}

} // verus!
