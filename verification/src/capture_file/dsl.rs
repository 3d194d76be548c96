//! Captures with one file for each block of a channel.

use vstd::prelude::*;

use crate::bits::{bit_of, get_bit};
use crate::capture_file::cache::{place_of, recent, touched, BlockCache, CachedView};
use crate::capture_file::error::{parse_error, CaptureFileError, FileErrorView};
use crate::capture_file::metadata::{name_views, CaptureMetadata, MetadataView};
use crate::paths::{file_name, file_name_of, replace_file_name, with_file_name};
use crate::text::{
    append_chars, behind, char_views, decimal, decimal_chars, find_text, first_text, from_chars,
    lines_of, parse_unsigned, parsed_unsigned, slice_chars, strip_prefix, to_chars, trimmed_lines,
};

verus! {

/// A name that a header gives to a probe.
#[derive(Debug)]
pub struct ProbeName {
    pub probe: usize,
    pub name: Vec<char>,
}

/// Names of probes seen through their texts.
pub open spec fn probe_views(names: Seq<ProbeName>) -> Seq<(usize, Seq<char>)> {
    names.map_values(|entry: ProbeName| (entry.probe, entry.name@))
}

/// The fields of a header read so far.
#[derive(Debug)]
pub struct DslFields {
    pub total_probes: Option<usize>,
    pub samplerate: Option<Vec<char>>,
    pub total_samples: Option<u64>,
    pub total_blocks: Option<u64>,
    pub trigger_sample: Option<u64>,
    pub probe_names: Vec<ProbeName>,
}

/// Fields seen through their texts.
#[verifier::ext_equal]
pub struct FieldsView {
    pub total_probes: Option<usize>,
    pub samplerate: Option<Seq<char>>,
    pub total_samples: Option<u64>,
    pub total_blocks: Option<u64>,
    pub trigger_sample: Option<u64>,
    pub probe_names: Seq<(usize, Seq<char>)>,
}

impl View for DslFields {
    type V = FieldsView;

    open spec fn view(&self) -> FieldsView {
        FieldsView {
            total_probes: self.total_probes,
            samplerate: match self.samplerate {
                Some(text) => Some(text@),
                None => None,
            },
            total_samples: self.total_samples,
            total_blocks: self.total_blocks,
            trigger_sample: self.trigger_sample,
            probe_names: probe_views(self.probe_names@),
        }
    }
}

/// A size read from a text.
pub open spec fn size_from(text: Seq<char>) -> Option<usize> {
    match parsed_unsigned(text, usize::MAX as int) {
        Some(value) => Some(value as usize),
        None => None,
    }
}

/// A count read from a text.
pub open spec fn count_from(text: Seq<char>) -> Option<u64> {
    match parsed_unsigned(text, u64::MAX as int) {
        Some(value) => Some(value as u64),
        None => None,
    }
}

/// The name that a line gives to a probe.
pub open spec fn named_probe(line: Seq<char>) -> Option<(usize, Seq<char>)> {
    match first_text(line, " = "@, 0) {
        Some(at) => match behind(line.subrange(0, at), "probe"@) {
            Some(number) => match size_from(number) {
                Some(probe) => Some((probe, line.skip(at + " = "@.len()))),
                None => None,
            },
            None => None,
        },
        None => None,
    }
}

/// The fields after a line. A number that cannot be read clears its field; lines of other kinds
/// are ignored.
pub open spec fn with_line(fields: FieldsView, line: Seq<char>) -> FieldsView {
    if let Some(value) = behind(line, "total probes = "@) {
        FieldsView { total_probes: size_from(value), ..fields }
    } else if let Some(value) = behind(line, "samplerate = "@) {
        FieldsView { samplerate: Some(value), ..fields }
    } else if let Some(value) = behind(line, "total samples = "@) {
        FieldsView { total_samples: count_from(value), ..fields }
    } else if let Some(value) = behind(line, "total blocks = "@) {
        FieldsView { total_blocks: count_from(value), ..fields }
    } else if let Some(value) = behind(line, "trigger sample = "@) {
        FieldsView { trigger_sample: count_from(value), ..fields }
    } else if let Some(named) = named_probe(line) {
        FieldsView { probe_names: fields.probe_names.push(named), ..fields }
    } else {
        fields
    }
}

/// The fields after the first `count` lines.
pub open spec fn fields_after(lines: Seq<Seq<char>>, count: nat) -> FieldsView
    decreases count,
{
    if count == 0 {
        FieldsView {
            total_probes: None,
            samplerate: None,
            total_samples: None,
            total_blocks: None,
            trigger_sample: None,
            probe_names: Seq::empty(),
        }
    } else {
        with_line(fields_after(lines, (count - 1) as nat), lines[count - 1])
    }
}

/// The fields of a header.
pub open spec fn header_fields(text: Seq<char>) -> FieldsView {
    fields_after(trimmed_lines(text), trimmed_lines(text).len())
}

fn exec_size(text: &[char]) -> (result: Option<usize>)
    ensures
        result == size_from(text@),
{
    match parse_unsigned(text, usize::MAX as u64) {
        Some(value) => Some(value as usize),
        None => None,
    }
}

fn exec_count(text: &[char]) -> (result: Option<u64>)
    ensures
        result == count_from(text@),
{
    parse_unsigned(text, u64::MAX)
}

fn exec_named_probe(line: &[char]) -> (result: Option<ProbeName>)
    ensures
        match result {
            Some(named) => named_probe(line@) == Some((named.probe, named.name@)),
            None => named_probe(line@) is None,
        },
{
    let len: usize = line.len();
    let arrow: Vec<char> = to_chars(" = ");
    match find_text(line, arrow.as_slice()) {
        Some(at) => {
            let head: Vec<char> = slice_chars(line, 0, at);
            match strip_prefix(head.as_slice(), "probe") {
                Some(number) => match exec_size(number.as_slice()) {
                    Some(probe) => {
                        let name: Vec<char> = slice_chars(line, at + arrow.len(), len);
                        assert(name@ =~= line@.skip(at + " = "@.len()));
                        Some(ProbeName { probe, name })
                    },
                    None => None,
                },
                None => None,
            }
        },
        None => None,
    }
}

fn take_line(fields: &mut DslFields, line: &[char])
    ensures
        final(fields)@ == with_line(old(fields)@, line@),
{
    if let Some(value) = strip_prefix(line, "total probes = ") {
        fields.total_probes = exec_size(value.as_slice());
    } else if let Some(value) = strip_prefix(line, "samplerate = ") {
        fields.samplerate = Some(value);
    } else if let Some(value) = strip_prefix(line, "total samples = ") {
        fields.total_samples = exec_count(value.as_slice());
    } else if let Some(value) = strip_prefix(line, "total blocks = ") {
        fields.total_blocks = exec_count(value.as_slice());
    } else if let Some(value) = strip_prefix(line, "trigger sample = ") {
        fields.trigger_sample = exec_count(value.as_slice());
    } else if let Some(named) = exec_named_probe(line) {
        let ghost before = fields.probe_names@;
        let ghost view = (named.probe, named.name@);
        fields.probe_names.push(named);
        assert(probe_views(fields.probe_names@) =~= probe_views(before).push(view));
    }
}

/// A header with each field that must be there.
#[derive(Debug)]
pub struct DslHeader {
    pub total_probes: usize,
    pub samplerate: Vec<char>,
    pub total_samples: u64,
    pub total_blocks: u64,
    pub trigger_sample: Option<u64>,
    pub probe_names: Vec<ProbeName>,
}

impl DslHeader {
    /// The fields of the header.
    pub open spec fn fields(&self) -> FieldsView {
        FieldsView {
            total_probes: Some(self.total_probes),
            samplerate: Some(self.samplerate@),
            total_samples: Some(self.total_samples),
            total_blocks: Some(self.total_blocks),
            trigger_sample: self.trigger_sample,
            probe_names: probe_views(self.probe_names@),
        }
    }
}

/// The first field that a header must have and lacks.
pub open spec fn missing_field(fields: FieldsView) -> Option<Seq<char>> {
    if fields.total_probes is None {
        Some("missing required field: total probes"@)
    } else if fields.samplerate is None {
        Some("missing required field: samplerate"@)
    } else if fields.total_samples is None {
        Some("missing required field: total samples"@)
    } else if fields.total_blocks is None {
        Some("missing required field: total blocks"@)
    } else {
        None
    }
}

/// Reads a header.
pub fn parse_header(text: &str) -> (result: Result<DslHeader, CaptureFileError>)
    ensures
        match missing_field(header_fields(text@)) {
            Some(message) => result matches Err(error) && error@ == FileErrorView::ParseError(
                message,
            ),
            None => result matches Ok(header) && header.fields() == header_fields(text@),
        },
{
    let characters: Vec<char> = to_chars(text);
    let lines: Vec<Vec<char>> = lines_of(characters.as_slice());
    let ghost all = trimmed_lines(text@);
    let mut fields = DslFields {
        total_probes: None,
        samplerate: None,
        total_samples: None,
        total_blocks: None,
        trigger_sample: None,
        probe_names: Vec::new(),
    };
    let mut index: usize = 0;
    assert(fields@ =~= fields_after(all, 0));
    while index < lines.len()
        invariant
            index <= lines@.len(),
            char_views(lines@) == all,
            fields@ == fields_after(all, index as nat),
        decreases lines@.len() - index,
    {
        assert(all[index as int] == lines@[index as int]@);
        take_line(&mut fields, lines[index].as_slice());
        index += 1;
    }
    assert(all.len() == lines@.len());
    assert(fields@ == header_fields(text@));
    let total_probes: usize = match fields.total_probes {
        Some(value) => value,
        None => {
            return Err(parse_error("missing required field: total probes"));
        },
    };
    let samplerate: Vec<char> = match fields.samplerate {
        Some(value) => value,
        None => {
            return Err(parse_error("missing required field: samplerate"));
        },
    };
    let total_samples: u64 = match fields.total_samples {
        Some(value) => value,
        None => {
            return Err(parse_error("missing required field: total samples"));
        },
    };
    let total_blocks: u64 = match fields.total_blocks {
        Some(value) => value,
        None => {
            return Err(parse_error("missing required field: total blocks"));
        },
    };
    Ok(
        DslHeader {
            total_probes,
            samplerate,
            total_samples,
            total_blocks,
            trigger_sample: fields.trigger_sample,
            probe_names: fields.probe_names,
        },
    )
}

/// The name that was given to a probe last.
pub open spec fn given_name(names: Seq<(usize, Seq<char>)>, probe: usize) -> Option<Seq<char>>
    decreases names.len(),
{
    if names.len() == 0 {
        None
    } else if names.last().0 == probe {
        Some(names.last().1)
    } else {
        given_name(names.drop_last(), probe)
    }
}

/// The name of a probe: the one that was given to it last, or its number.
pub open spec fn probe_name(names: Seq<(usize, Seq<char>)>, probe: int) -> Seq<char> {
    match given_name(names, probe as usize) {
        Some(name) => name,
        None => "Probe"@ + decimal(probe as nat),
    }
}

fn exec_probe_name(names: &Vec<ProbeName>, probe: usize) -> (result: String)
    ensures
        result@ == probe_name(probe_views(names@), probe as int),
{
    let ghost views = probe_views(names@);
    let mut left: usize = names.len();
    assert(views.take(left as int) =~= views);
    while left > 0
        invariant
            left <= names@.len(),
            views == probe_views(names@),
            given_name(views, probe) == given_name(views.take(left as int), probe),
        decreases left,
    {
        let entry: &ProbeName = &names[left - 1];
        assert(views.take(left as int).last() == (entry.probe, entry.name@));
        assert(views.take(left as int).drop_last() =~= views.take(left - 1));
        if entry.probe == probe {
            return from_chars(entry.name.as_slice());
        }
        left -= 1;
    }
    let mut name: Vec<char> = to_chars("Probe");
    append_chars(&mut name, decimal_chars(probe as u64).as_slice());
    from_chars(name.as_slice())
}

impl DslHeader {
    /// What the capture says of itself, once the size of its first block is known.
    pub fn metadata(&self, first_block_bytes: u64) -> (result: CaptureMetadata)
        requires
            first_block_bytes * 8 <= u64::MAX,
        ensures
            result@ == (MetadataView {
                total_probes: self.total_probes,
                samplerate: self.samplerate@,
                total_samples: self.total_samples,
                total_blocks: self.total_blocks,
                samples_per_block: (first_block_bytes * 8) as u64,
                probe_names: Seq::new(
                    self.total_probes as nat,
                    |probe: int| probe_name(probe_views(self.probe_names@), probe),
                ),
                trigger_sample: self.trigger_sample,
            }),
    {
        let mut names: Vec<String> = Vec::new();
        let mut probe: usize = 0;
        while probe < self.total_probes
            invariant
                probe <= self.total_probes,
                name_views(names@) =~= Seq::new(
                    probe as nat,
                    |probe: int| probe_name(probe_views(self.probe_names@), probe),
                ),
            decreases self.total_probes - probe,
        {
            let ghost before = names@;
            let name: String = exec_probe_name(&self.probe_names, probe);
            let ghost view = name@;
            names.push(name);
            assert(name_views(names@) =~= name_views(before).push(view));
            probe += 1;
        }
        CaptureMetadata {
            total_probes: self.total_probes,
            samplerate: from_chars(self.samplerate.as_slice()),
            total_samples: self.total_samples,
            total_blocks: self.total_blocks,
            samples_per_block: first_block_bytes * 8,
            probe_names: names,
            trigger_sample: self.trigger_sample,
        }
    }
}

/// The name of the file that holds a block of a channel.
pub open spec fn block_file(channel: usize, block: u64) -> Seq<char> {
    "L-"@ + decimal(channel as nat) + "/"@ + decimal(block as nat)
}

/// Names the file that holds a block of a channel.
pub fn block_name(channel: usize, block: u64) -> (result: String)
    ensures
        result@ == block_file(channel, block),
{
    let mut name: Vec<char> = to_chars("L-");
    append_chars(&mut name, decimal_chars(channel as u64).as_slice());
    append_chars(&mut name, to_chars("/").as_slice());
    append_chars(&mut name, decimal_chars(block).as_slice());
    from_chars(name.as_slice())
}

/// What a reader needs next.
#[derive(Debug)]
pub enum ReadStep<T> {
    /// The answer.
    Done(T),
    /// The contents of a file.
    Load { name: String, channel: usize, block: u64 },
}

/// A reader of single samples and of blocks, with a bounded number of blocks in memory.
#[derive(Debug)]
pub struct DslCaptureReader {
    pub header: CaptureMetadata,
    pub cache: BlockCache,
}

/// The block and the place in it at which a sample is.
pub open spec fn place_in_blocks(header: CaptureMetadata, position: u64) -> Option<(u64, int)> {
    let block = position / header.samples_per_block;
    if position < header.total_samples && block < header.total_blocks {
        Some((block, (position % header.samples_per_block) as int))
    } else {
        None
    }
}

/// The bit of a block; what is beyond its end reads as low.
pub open spec fn block_level(data: Seq<u8>, place: int) -> bool {
    place < 8 * data.len() && bit_of(data, place)
}

impl DslCaptureReader {
    /// A reader with room for one block.
    pub fn new(header: CaptureMetadata) -> (result: DslCaptureReader)
        ensures
            result.header == header,
            result.cache.wf(),
            result.cache@ == Seq::<CachedView>::empty(),
            result.cache.max_cached_blocks == 1,
    {
        DslCaptureReader { header, cache: BlockCache::new() }
    }

    /// The same reader with room for another number of blocks, at least one.
    pub fn with_max_cached_blocks(self, max_cached_blocks: usize) -> (result: DslCaptureReader)
        requires
            self.cache.wf(),
        ensures
            result.header == self.header,
            result.cache.wf(),
            result.cache.max_cached_blocks == if max_cached_blocks == 0 {
                1
            } else {
                max_cached_blocks
            },
            result.cache@ == recent(self.cache@, result.cache.max_cached_blocks as int),
    {
        DslCaptureReader {
            header: self.header,
            cache: self.cache.with_max_cached_blocks(max_cached_blocks),
        }
    }

    /// Reads a block: from the cache, where it then is the most recent one, or else from its file.
    pub fn read_packed_block(&mut self, channel: usize, block: u64) -> (result: ReadStep<Vec<u8>>)
        requires
            old(self).cache.wf(),
        ensures
            final(self).header == old(self).header,
            final(self).cache.wf(),
            final(self).cache.max_cached_blocks == old(self).cache.max_cached_blocks,
            match place_of(old(self).cache@, channel, block) {
                Some(place) => {
                    &&& result matches ReadStep::Done(data)
                    &&& data@ == old(self).cache@[place].data
                    &&& final(self).cache@ == touched(old(self).cache@, place)
                },
                None => {
                    &&& result matches ReadStep::Load { name, channel: of, block: number }
                    &&& name@ == block_file(channel, block)
                    &&& of == channel && number == block
                    &&& final(self).cache@ == old(self).cache@
                },
            },
    {
        match self.cache.lookup(channel, block) {
            Some(data) => ReadStep::Done(data),
            None => ReadStep::Load { name: block_name(channel, block), channel, block },
        }
    }

    /// Takes the contents of a block's file in, or that there is no such file.
    pub fn supply_block(
        &mut self,
        channel: usize,
        block: u64,
        contents: Option<Vec<u8>>,
    ) -> (result: Result<Vec<u8>, CaptureFileError>)
        requires
            old(self).cache.wf(),
            place_of(old(self).cache@, channel, block) is None,
        ensures
            final(self).header == old(self).header,
            final(self).cache.wf(),
            final(self).cache.max_cached_blocks == old(self).cache.max_cached_blocks,
            match contents {
                Some(bytes) => {
                    &&& result matches Ok(data)
                    &&& data@ == bytes@
                    &&& final(self).cache@ == recent(
                        old(self).cache@.push(CachedView { channel, block, data: bytes@ }),
                        old(self).cache.max_cached_blocks as int,
                    )
                },
                None => {
                    &&& result matches Err(error)
                    &&& error@ == FileErrorView::InvalidBlock(block)
                    &&& final(self).cache@ == old(self).cache@
                },
            },
    {
        match contents {
            Some(bytes) => {
                let mut copy: Vec<u8> = Vec::new();
                copy.extend_from_slice(bytes.as_slice());
                assert(copy@ =~= bytes@);
                self.cache.insert(channel, block, copy);
                Ok(bytes)
            },
            None => Err(CaptureFileError::InvalidBlock(block)),
        }
    }

    /// Reads a sample: from a block in the cache, or else from the file of its block.
    pub fn read_sample(&mut self, channel: usize, position: u64) -> (result: Result<
        ReadStep<bool>,
        CaptureFileError,
    >)
        requires
            old(self).cache.wf(),
            0 < old(self).header.samples_per_block,
        ensures
            final(self).header == old(self).header,
            final(self).cache.wf(),
            final(self).cache.max_cached_blocks == old(self).cache.max_cached_blocks,
            match place_in_blocks(old(self).header, position) {
                None => {
                    &&& result matches Err(error)
                    &&& error@ == FileErrorView::OutOfBounds(position)
                    &&& final(self).cache@ == old(self).cache@
                },
                Some((block, offset)) => match place_of(old(self).cache@, channel, block) {
                    Some(place) => {
                        &&& result matches Ok(ReadStep::Done(level))
                        &&& level == block_level(
                            old(self).cache@[place].data,
                            (offset as usize) as int,
                        )
                        &&& final(self).cache@ == touched(old(self).cache@, place)
                    },
                    None => {
                        &&& result matches Ok(ReadStep::Load { name, channel: of, block: number })
                        &&& name@ == block_file(channel, block)
                        &&& of == channel && number == block
                        &&& final(self).cache@ == old(self).cache@
                    },
                },
            },
    {
        if position >= self.header.total_samples {
            return Err(CaptureFileError::OutOfBounds(position));
        }
        let block: u64 = position / self.header.samples_per_block;
        if block >= self.header.total_blocks {
            return Err(CaptureFileError::OutOfBounds(position));
        }
        let offset: usize = (position % self.header.samples_per_block) as usize;
        match self.read_packed_block(channel, block) {
            ReadStep::Done(data) => Ok(ReadStep::Done(get_bit(data.as_slice(), offset))),
            ReadStep::Load { name, channel, block } => Ok(ReadStep::Load { name, channel, block }),
        }
    }

    /// Takes the contents of the file in that a sample is in.
    pub fn supply_sample(
        &mut self,
        channel: usize,
        position: u64,
        contents: Option<Vec<u8>>,
    ) -> (result: Result<bool, CaptureFileError>)
        requires
            old(self).cache.wf(),
            0 < old(self).header.samples_per_block,
            place_in_blocks(old(self).header, position) matches Some((block, _)) ==> place_of(
                old(self).cache@,
                channel,
                block,
            ) is None,
        ensures
            final(self).header == old(self).header,
            final(self).cache.wf(),
            final(self).cache.max_cached_blocks == old(self).cache.max_cached_blocks,
            match (place_in_blocks(old(self).header, position), contents) {
                (None, _) => {
                    &&& result matches Err(error)
                    &&& error@ == FileErrorView::OutOfBounds(position)
                    &&& final(self).cache@ == old(self).cache@
                },
                (Some((block, offset)), Some(bytes)) => {
                    &&& result == Ok::<bool, CaptureFileError>(
                        block_level(bytes@, (offset as usize) as int),
                    )
                    &&& final(self).cache@ == recent(
                        old(self).cache@.push(CachedView { channel, block, data: bytes@ }),
                        old(self).cache.max_cached_blocks as int,
                    )
                },
                (Some((block, _)), None) => {
                    &&& result matches Err(error)
                    &&& error@ == FileErrorView::InvalidBlock(block)
                    &&& final(self).cache@ == old(self).cache@
                },
            },
    {
        if position >= self.header.total_samples {
            return Err(CaptureFileError::OutOfBounds(position));
        }
        let block: u64 = position / self.header.samples_per_block;
        if block >= self.header.total_blocks {
            return Err(CaptureFileError::OutOfBounds(position));
        }
        let offset: usize = (position % self.header.samples_per_block) as usize;
        match self.supply_block(channel, block, contents) {
            Ok(data) => Ok(get_bit(data.as_slice(), offset)),
            Err(error) => Err(error),
        }
    }
}

/// The path of the index beside a capture.
pub open spec fn sidecar_of(path: Seq<char>) -> Seq<char> {
    with_file_name(
        path,
        (match file_name_of(path) {
            Some(name) => name,
            None => "capture.dsl"@,
        }) + ".idx"@,
    )
}

/// The path of the index beside a capture: that of the capture, or a default name in its place,
/// and a suffix.
pub fn dsl_sidecar_path(path: &str) -> (result: String)
    ensures
        result@ == sidecar_of(path@),
{
    let path: Vec<char> = to_chars(path);
    let mut name: Vec<char> = match file_name(path.as_slice()) {
        Some(name) => name,
        None => to_chars("capture.dsl"),
    };
    append_chars(&mut name, to_chars(".idx").as_slice());
    from_chars(replace_file_name(path.as_slice(), name.as_slice()).as_slice())
}

} // verus!
