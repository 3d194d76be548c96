//! Outputs of a source.

use vstd::prelude::*;

use crate::ports::numbered;
use crate::text::{
    append_chars, decimal, from_chars, law_decimal_tells_numbers_apart, owned, to_chars,
};

verus! {

/// What an output carries.
#[derive(Debug, Clone, Copy, PartialEq, Eq, Structural)]
pub enum OutputForm {
    /// Level changes.
    Edges,
    /// Aligned packed blocks of samples.
    Blocks,
    /// Chunks as they were captured.
    Chunks,
}

/// One output of a source.
#[derive(Debug)]
pub struct OutputSchema {
    pub name: String,
    pub index: usize,
    /// Offered forms, preferred first.
    pub forms: Vec<OutputForm>,
}

/// What an output of a source of some channels carries: first come the level changes of each
/// channel, then the blocks of each channel, and last the chunks themselves.
pub open spec fn output_form(channels: int, index: int) -> OutputForm {
    if index < channels {
        OutputForm::Edges
    } else if index < 2 * channels {
        OutputForm::Blocks
    } else {
        OutputForm::Chunks
    }
}

/// The name of an output: `d0`, `d1` and so on for level changes, `b0`, `b1` and so on for blocks,
/// `raw` for chunks.
pub open spec fn output_name(channels: int, index: int) -> Seq<char> {
    if index < channels {
        "d"@ + decimal(index as nat)
    } else if index < 2 * channels {
        "b"@ + decimal((index - channels) as nat)
    } else {
        "raw"@
    }
}

/// The name of a source over a driver.
pub fn source_name(driver: &str) -> (result: String)
    ensures
        result@ == driver@ + "_source"@,
{
    let mut name: Vec<char> = to_chars(driver);
    append_chars(&mut name, to_chars("_source").as_slice());
    from_chars(name.as_slice())
}

/// How many outputs a source of some channels has.
pub fn num_outputs(channels: u8) -> (result: usize)
    ensures
        result == 2 * channels + 1,
{
    2 * channels as usize + 1
}

/// The outputs of a source of some channels.
pub fn output_schema(channels: u8) -> (result: Vec<OutputSchema>)
    ensures
        result@.len() == 2 * channels + 1,
        forall|i: int|
            0 <= i <= 2 * channels ==> (#[trigger] result@[i]).name@ == output_name(
                channels as int,
                i,
            ) && result@[i].index == i && result@[i].forms@ == seq![
                output_form(channels as int, i),
            ],
{
    let count: usize = channels as usize;
    let mut result: Vec<OutputSchema> = Vec::new();
    let mut index: usize = 0;
    while index < 2 * count
        invariant
            count == channels,
            index <= 2 * count,
            result@.len() == index,
            forall|i: int|
                0 <= i < index ==> (#[trigger] result@[i]).name@ == output_name(channels as int, i)
                    && result@[i].index == i && result@[i].forms@ == seq![
                    output_form(channels as int, i),
                ],
        decreases 2 * count - index,
    {
        let (name, form): (String, OutputForm) = if index < count {
            (numbered("d", index), OutputForm::Edges)
        } else {
            (numbered("b", index - count), OutputForm::Blocks)
        };
        let forms: Vec<OutputForm> = vec![form];
        assert(forms@ =~= seq![output_form(channels as int, index as int)]);
        result.push(OutputSchema { name, index, forms });
        index += 1;
    }
    let forms: Vec<OutputForm> = vec![OutputForm::Chunks];
    assert(forms@ =~= seq![output_form(channels as int, index as int)]);
    result.push(OutputSchema { name: owned("raw"), index, forms });
    result
}

/// No two outputs of a source have the same name.
pub proof fn law_output_names_differ(channels: int, first: int, second: int)
    requires
        0 <= first < second <= 2 * channels,
    ensures
        output_name(channels, first) != output_name(channels, second),
{
    reveal_strlit("d");
    reveal_strlit("b");
    reveal_strlit("raw");
    let a = output_name(channels, first);
    let b = output_name(channels, second);
    if output_form(channels, first) == output_form(channels, second) {
        let skipped = if first < channels {
            0
        } else {
            channels
        };
        assert(a.skip(1) =~= decimal((first - skipped) as nat));
        assert(b.skip(1) =~= decimal((second - skipped) as nat));
        if a == b {
            law_decimal_tells_numbers_apart((first - skipped) as nat, (second - skipped) as nat);
        }
    } else {
        assert(a[0] != b[0]);
    }
}

/// Each channel has an output for its level changes and, as many outputs further on as there are
/// channels, one for its blocks; both carry the channel's number. The chunks come last.
pub proof fn law_channel_has_two_outputs(channels: int, channel: int)
    requires
        0 <= channel < channels,
    ensures
        output_form(channels, channel) == OutputForm::Edges,
        output_form(channels, channel + channels) == OutputForm::Blocks,
        output_form(channels, 2 * channels) == OutputForm::Chunks,
        output_name(channels, channel).skip(1) == decimal(channel as nat),
        output_name(channels, channel + channels).skip(1) == decimal(channel as nat),
        output_name(channels, channel)[0] == 'd',
        output_name(channels, channel + channels)[0] == 'b',
        output_name(channels, 2 * channels) == "raw"@,
{
    reveal_strlit("d");
    reveal_strlit("b");
    assert(output_name(channels, channel).skip(1) =~= decimal(channel as nat));
    assert(output_name(channels, channel + channels).skip(1) =~= decimal(channel as nat));
}

} // verus!
