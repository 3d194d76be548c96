//! Sigrok sessions: a metadata file and files of interleaved samples.

use vstd::prelude::*;
use vstd::arithmetic::power2::pow2;

use crate::bit_laws::{
    bytes_number, law_packed_bits_are_binary_digits, lemma_digits_sum_up, level_sum, number_bit,
};
use crate::bits::{bytes_for, byte_bit, bit_of, packed_len, set_packed_bit, zero_bytes};
use crate::capture_file::error::{
    joined_error, labelled_error, numbers_error, parse_error, CaptureFileError, FileErrorView,
};
use crate::capture_file::ini::{
    entry_views, first_section, is_first_section, law_first_section_is_unique, lookup, text_view,
    value_of, EntryView, IniEntry,
};
use crate::capture_file::metadata::{name_views, CaptureMetadata, MetadataView};
use crate::level_changes::{changes_of, list_changes, times_fit};
use crate::paths::{file_name, file_name_of, replace_file_name, with_file_name};
use crate::ports::{add_port, listed, numbered, port_views, PortKind, PortSchema};
use crate::streams::Sample;
use crate::text::{
    append_chars, behind, char_views, decimal, decimal_chars, from_chars, owned, parse_unsigned,
    parsed_unsigned, same_chars, slice_chars, starts_with, to_chars, trim, trimmed,
};

verus! {

/// Whether a number of channels can be asked for.
pub fn check_channels(minimum_channels: u8) -> (result: Result<(), CaptureFileError>)
    ensures
        match result {
            Ok(()) => 1 <= minimum_channels <= 32,
            Err(error) => !(1 <= minimum_channels <= 32) && error@ == FileErrorView::ParseError(
                "num_channels must be 1-32, got "@ + decimal(minimum_channels as nat),
            ),
        },
{
    if 1 <= minimum_channels && minimum_channels <= 32 {
        Ok(())
    } else {
        Err(
            labelled_error(
                "num_channels must be 1-32, got ",
                decimal_chars(minimum_channels as u64).as_slice(),
            ),
        )
    }
}

/// Whether a session has the version that can be read.
pub fn check_version(text: &str) -> (result: Result<(), CaptureFileError>)
    ensures
        match result {
            Ok(()) => trimmed(text@) == "2"@,
            Err(error) => trimmed(text@) != "2"@ && error@ == FileErrorView::ParseError(
                "unsupported sigrok session version '"@ + trimmed(text@) + "' (expected 2)"@,
            ),
        },
{
    let version: Vec<char> = trim(to_chars(text).as_slice());
    if same_chars(version.as_slice(), to_chars("2").as_slice()) {
        Ok(())
    } else {
        Err(
            joined_error(
                "unsupported sigrok session version '",
                version.as_slice(),
                "' (expected 2)",
            ),
        )
    }
}

/// What the metadata says of the samples.
#[derive(Debug)]
pub struct SessionLayout {
    pub device: Vec<char>,
    pub capturefile: Vec<char>,
    pub total_probes: usize,
    pub unitsize: usize,
    pub samplerate: Vec<char>,
}

/// A layout seen through its texts.
pub struct LayoutView {
    pub device: Seq<char>,
    pub capturefile: Seq<char>,
    pub total_probes: usize,
    pub unitsize: usize,
    pub samplerate: Seq<char>,
}

impl View for SessionLayout {
    type V = LayoutView;

    open spec fn view(&self) -> LayoutView {
        LayoutView {
            device: self.device@,
            capturefile: self.capturefile@,
            total_probes: self.total_probes,
            unitsize: self.unitsize,
            samplerate: self.samplerate@,
        }
    }
}

impl LayoutView {
    /// A sample has room for each probe.
    pub open spec fn wf(self) -> bool {
        &&& 0 < self.unitsize
        &&& 0 < self.total_probes
        &&& self.total_probes <= 8 * self.unitsize
    }
}

/// The section of the device whose samples are read: the first one, in the order of their names,
/// that has a capture file.
pub open spec fn device_section(entries: Seq<EntryView>) -> Option<Seq<char>> {
    choose|section: Option<Seq<char>>|
        is_first_section(entries, "device "@, "capturefile"@, section)
}

/// The error for a field that the device lacks.
pub open spec fn missing_field(key: Seq<char>) -> FileErrorView {
    FileErrorView::ParseError("missing required field: device X."@ + key)
}

/// The layout that the metadata gives, or the first thing that is wrong with it.
pub open spec fn layout_of(entries: Seq<EntryView>, minimum_channels: u8) -> Result<
    LayoutView,
    FileErrorView,
> {
    match device_section(entries) {
        None => Err(missing_field("capturefile"@)),
        Some(device) => match value_of(entries, device, "capturefile"@) {
            None => Err(missing_field("capturefile"@)),
            Some(capturefile) => match value_of(entries, device, "total probes"@) {
                None => Err(missing_field("total probes"@)),
                Some(probes) => match parsed_unsigned(probes, usize::MAX as int) {
                    None => Err(FileErrorView::ParseError("invalid device X.total probes"@)),
                    Some(total_probes) => sized_layout(
                        entries,
                        device,
                        capturefile,
                        total_probes,
                        minimum_channels,
                    ),
                },
            },
        },
    }
}

/// The layout of a device with a known number of probes.
pub open spec fn sized_layout(
    entries: Seq<EntryView>,
    device: Seq<char>,
    capturefile: Seq<char>,
    total_probes: int,
    minimum_channels: u8,
) -> Result<LayoutView, FileErrorView> {
    match value_of(entries, device, "unitsize"@) {
        None => Err(missing_field("unitsize"@)),
        Some(size) => match parsed_unsigned(size, usize::MAX as int) {
            None => Err(FileErrorView::ParseError("invalid device X.unitsize"@)),
            Some(unitsize) => if unitsize == 0 || total_probes == 0 || total_probes > unitsize * 8 {
                Err(
                    FileErrorView::ParseError(
                        "invalid sigrok logic layout: "@ + decimal(total_probes as nat)
                            + " probes in "@ + decimal(unitsize as nat) + "-byte samples"@,
                    ),
                )
            } else if total_probes < minimum_channels {
                Err(
                    FileErrorView::ParseError(
                        "File has only "@ + decimal(total_probes as nat)
                            + " channels, need at least "@ + decimal(minimum_channels as nat) + ""@,
                    ),
                )
            } else {
                match value_of(entries, device, "samplerate"@) {
                    None => Err(missing_field("samplerate"@)),
                    Some(samplerate) => Ok(
                        LayoutView {
                            device,
                            capturefile,
                            total_probes: total_probes as usize,
                            unitsize: unitsize as usize,
                            samplerate,
                        },
                    ),
                }
            },
        },
    }
}

/// Looks a field of the device up that must be there.
fn required(entries: &Vec<IniEntry>, device: &[char], key: &str) -> (result: Result<
    Vec<char>,
    CaptureFileError,
>)
    ensures
        match result {
            Ok(value) => value_of(entry_views(entries@), device@, key@) == Some(value@),
            Err(error) => value_of(entry_views(entries@), device@, key@) is None && error@
                == missing_field(key@),
        },
{
    let key: Vec<char> = to_chars(key);
    match lookup(entries, device, key.as_slice()) {
        Some(value) => Ok(value),
        None => Err(labelled_error("missing required field: device X.", key.as_slice())),
    }
}

/// Looks a field of the device up that must be there and be a size.
fn required_size(
    entries: &Vec<IniEntry>,
    device: &[char],
    key: &str,
    message: &str,
) -> (result: Result<usize, CaptureFileError>)
    ensures
        match value_of(entry_views(entries@), device@, key@) {
            None => result matches Err(error) && error@ == missing_field(key@),
            Some(text) => match parsed_unsigned(text, usize::MAX as int) {
                None => result matches Err(error) && error@ == FileErrorView::ParseError(message@),
                Some(size) => result matches Ok(value) && value == size,
            },
        },
{
    match required(entries, device, key) {
        Ok(text) => match parse_unsigned(text.as_slice(), usize::MAX as u64) {
            Some(size) => Ok(size as usize),
            None => Err(parse_error(message)),
        },
        Err(error) => Err(error),
    }
}

/// Reads the layout of a session's samples.
pub fn read_layout(entries: &Vec<IniEntry>, minimum_channels: u8) -> (result: Result<
    SessionLayout,
    CaptureFileError,
>)
    ensures
        match result {
            Ok(layout) => layout_of(entry_views(entries@), minimum_channels) == Ok::<
                LayoutView,
                FileErrorView,
            >(layout@) && layout@.wf(),
            Err(error) => layout_of(entry_views(entries@), minimum_channels) == Err::<
                LayoutView,
                FileErrorView,
            >(error@),
        },
{
    let ghost views = entry_views(entries@);
    let found: Option<Vec<char>> = first_section(
        entries,
        to_chars("device ").as_slice(),
        to_chars("capturefile").as_slice(),
    );
    proof {
        law_first_section_is_unique(
            views,
            "device "@,
            "capturefile"@,
            text_view(found),
            device_section(views),
        );
    }
    let device: Vec<char> = match found {
        Some(device) => device,
        None => {
            return Err(
                labelled_error(
                    "missing required field: device X.",
                    to_chars("capturefile").as_slice(),
                ),
            );
        },
    };
    let capturefile: Vec<char> = match required(entries, device.as_slice(), "capturefile") {
        Ok(value) => value,
        Err(error) => {
            return Err(error);
        },
    };
    let total_probes: usize = match required_size(
        entries,
        device.as_slice(),
        "total probes",
        "invalid device X.total probes",
    ) {
        Ok(value) => value,
        Err(error) => {
            return Err(error);
        },
    };
    let unitsize: usize = match required_size(
        entries,
        device.as_slice(),
        "unitsize",
        "invalid device X.unitsize",
    ) {
        Ok(value) => value,
        Err(error) => {
            return Err(error);
        },
    };
    if unitsize == 0 || total_probes == 0 || (total_probes - 1) / 8 >= unitsize {
        return Err(
            numbers_error(
                "invalid sigrok logic layout: ",
                total_probes as u64,
                " probes in ",
                unitsize as u64,
                "-byte samples",
            ),
        );
    }
    if total_probes < minimum_channels as usize {
        return Err(
            numbers_error(
                "File has only ",
                total_probes as u64,
                " channels, need at least ",
                minimum_channels as u64,
                "",
            ),
        );
    }
    match required(entries, device.as_slice(), "samplerate") {
        Ok(samplerate) => Ok(
            SessionLayout { device, capturefile, total_probes, unitsize, samplerate },
        ),
        Err(error) => Err(error),
    }
}

/// The place of a file among the sample files of a session, if it is one: zero for the capture
/// file itself, else the number behind its name and a hyphen.
pub open spec fn part_number(capturefile: Seq<char>, name: Seq<char>) -> Option<int> {
    if name == capturefile {
        Some(0)
    } else {
        match behind(name, capturefile + "-"@) {
            Some(suffix) => parsed_unsigned(suffix, u64::MAX as int),
            None => None,
        }
    }
}

/// Whether one sample file comes before another: by its number, and among equal numbers as they
/// are listed.
pub open spec fn part_before(
    capturefile: Seq<char>,
    names: Seq<Seq<char>>,
    left: int,
    right: int,
) -> bool {
    let left_number = part_number(capturefile, names[left])->0;
    let right_number = part_number(capturefile, names[right])->0;
    left_number < right_number || (left_number == right_number && left < right)
}

/// Whether an index stands for a sample file.
pub open spec fn is_part(capturefile: Seq<char>, names: Seq<Seq<char>>, index: int) -> bool {
    0 <= index < names.len() && part_number(capturefile, names[index]) is Some
}

/// The sample files among those of an archive, in the order in which they are read: each of them,
/// once, sorted by number.
pub open spec fn is_part_order(
    capturefile: Seq<char>,
    names: Seq<Seq<char>>,
    order: Seq<usize>,
) -> bool {
    &&& forall|k: int| 0 <= k < order.len() ==> is_part(capturefile, names, #[trigger] order[k] as int)
    &&& forall|index: int| #[trigger]
        is_part(capturefile, names, index) ==> order.contains(index as usize)
    &&& forall|j: int, k: int|
        0 <= j < k < order.len() ==> part_before(
            capturefile,
            names,
            #[trigger] order[j] as int,
            #[trigger] order[k] as int,
        )
}

/// Finds a file's place among the sample files of a session.
fn exec_part_number(capturefile: &[char], name: &[char]) -> (result: Option<u64>)
    ensures
        match result {
            Some(number) => part_number(capturefile@, name@) == Some(number as int),
            None => part_number(capturefile@, name@) is None,
        },
{
    if same_chars(name, capturefile) {
        return Some(0);
    }
    let mut prefix: Vec<char> = Vec::new();
    append_chars(&mut prefix, capturefile);
    append_chars(&mut prefix, to_chars("-").as_slice());
    assert(prefix@ =~= capturefile@ + "-"@);
    if starts_with(name, prefix.as_slice()) {
        let suffix: Vec<char> = slice_chars(name, prefix.len(), name.len());
        assert(suffix@ =~= name@.skip(prefix@.len() as int));
        parse_unsigned(suffix.as_slice(), u64::MAX)
    } else {
        None
    }
}

/// Sorts the sample files of a session out of the files of an archive.
pub fn order_parts(capturefile: &[char], names: &Vec<Vec<char>>) -> (result: Vec<usize>)
    ensures
        is_part_order(capturefile@, char_views(names@), result@),
{
    let ghost views = char_views(names@);
    let ghost file = capturefile@;
    let mut order: Vec<usize> = Vec::new();
    let mut numbers: Vec<u64> = Vec::new();
    let mut index: usize = 0;
    while index < names.len()
        invariant
            index <= names@.len(),
            views == char_views(names@),
            file == capturefile@,
            numbers@.len() == order@.len(),
            forall|k: int|
                0 <= k < order@.len() ==> is_part(file, views, #[trigger] order@[k] as int)
                    && order@[k] < index && part_number(file, views[order@[k] as int]) == Some(
                    numbers@[k] as int,
                ),
            forall|i: int|
                i < index && #[trigger] is_part(file, views, i) ==> order@.contains(i as usize),
            forall|j: int, k: int|
                0 <= j < k < order@.len() ==> part_before(
                    file,
                    views,
                    #[trigger] order@[j] as int,
                    #[trigger] order@[k] as int,
                ),
        decreases names@.len() - index,
    {
        assert(views[index as int] == names@[index as int]@);
        match exec_part_number(capturefile, names[index].as_slice()) {
            Some(number) => {
                let mut place: usize = order.len();
                while place > 0 && numbers[place - 1] > number
                    invariant
                        place <= numbers@.len(),
                        forall|k: int|
                            place <= k < numbers@.len() ==> #[trigger] numbers@[k] > number,
                    decreases place,
                {
                    place -= 1;
                }
                let ghost before = order@;
                let ghost before_numbers = numbers@;
                order.insert(place, index);
                numbers.insert(place, number);
                proof {
                    assert(order@ =~= before.insert(place as int, index));
                    assert(numbers@ =~= before_numbers.insert(place as int, number));
                    assert forall|k: int| 0 <= k < order@.len() implies is_part(
                        file,
                        views,
                        #[trigger] order@[k] as int,
                    ) && order@[k] < index + 1 && part_number(file, views[order@[k] as int])
                        == Some(numbers@[k] as int) by {
                        if k < place {
                            assert(order@[k] == before[k]);
                        } else if k > place {
                            assert(order@[k] == before[k - 1]);
                        }
                    }
                    assert forall|i: int|
                        i < index + 1 && #[trigger] is_part(
                            file,
                            views,
                            i,
                        ) implies order@.contains(i as usize) by {
                        if i == index {
                            assert(order@[place as int] == i as usize);
                        } else {
                            let k = choose|k: int| 0 <= k < before.len() && before[k] == i as usize;
                            if k < place {
                                assert(order@[k] == i as usize);
                            } else {
                                assert(order@[k + 1] == i as usize);
                            }
                        }
                    }
                    assert forall|j: int, k: int| 0 <= j < k < order@.len() implies part_before(
                        file,
                        views,
                        #[trigger] order@[j] as int,
                        #[trigger] order@[k] as int,
                    ) by {
                        let old_j = if j < place { j } else { j - 1 };
                        let old_k = if k < place { k } else { k - 1 };
                        if j != place && k != place {
                            assert(order@[j] == before[old_j]);
                            assert(order@[k] == before[old_k]);
                        } else if j == place {
                            assert(order@[k] == before[old_k]);
                            assert(before_numbers[old_k] > number);
                        } else {
                            assert(order@[j] == before[j]);
                            assert(before_numbers[j] <= number) by {
                                if j < place - 1 {
                                    assert(part_before(
                                        file,
                                        views,
                                        before[j] as int,
                                        before[place - 1] as int,
                                    ));
                                }
                            }
                        }
                    }
                }
            },
            None => {},
        }
        index += 1;
    }
    order
}

proof fn lemma_same_part(
    capturefile: Seq<char>,
    names: Seq<Seq<char>>,
    left: Seq<usize>,
    right: Seq<usize>,
    k: int,
)
    requires
        is_part_order(capturefile, names, left),
        is_part_order(capturefile, names, right),
        0 <= k < left.len(),
        names.len() <= usize::MAX,
    ensures
        k < right.len() && left[k] == right[k],
    decreases k,
{
    assert forall|j: int| 0 <= j < k implies j < right.len() && left[j] == right[j] by {
        lemma_same_part(capturefile, names, left, right, j);
    }
    assert(is_part(capturefile, names, left[k] as int));
    assert(right.contains(left[k]));
    let m = choose|m: int| 0 <= m < right.len() && right[m] == left[k];
    if m < k {
        assert(left[m] == right[m]);
        assert(part_before(capturefile, names, left[m] as int, left[k] as int));
        assert(false);
    }
    if m > k {
        assert(part_before(capturefile, names, right[k] as int, right[m] as int));
        assert(is_part(capturefile, names, right[k] as int));
        assert(left.contains(right[k]));
        let n = choose|n: int| 0 <= n < left.len() && left[n] == right[k];
        if n < k {
            assert(right[n] == left[n]);
            assert(part_before(capturefile, names, right[n] as int, right[k] as int));
        } else if n > k {
            assert(part_before(capturefile, names, left[k] as int, left[n] as int));
        }
        assert(false);
    }
}

/// There is exactly one order in which the sample files can be read.
pub proof fn law_part_order_is_unique(
    capturefile: Seq<char>,
    names: Seq<Seq<char>>,
    left: Seq<usize>,
    right: Seq<usize>,
)
    requires
        names.len() <= usize::MAX,
        is_part_order(capturefile, names, left),
        is_part_order(capturefile, names, right),
    ensures
        left == right,
{
    assert forall|k: int| 0 <= k < left.len() implies k < right.len() && left[k] == right[k] by {
        lemma_same_part(capturefile, names, left, right, k);
    }
    if left.len() < right.len() {
        lemma_same_part(capturefile, names, right, left, left.len() as int);
    }
    if right.len() < left.len() {
        lemma_same_part(capturefile, names, left, right, right.len() as int);
    }
    assert(left =~= right);
}

/// What is read of a session.
#[derive(Debug)]
pub struct SessionPlan {
    pub trigger_sample: Option<u64>,
    pub parts: Vec<usize>,
}

/// The trigger sample of a device: none where it has no such field.
pub open spec fn trigger_of(entries: Seq<EntryView>, device: Seq<char>) -> Result<
    Option<u64>,
    FileErrorView,
> {
    match value_of(entries, device, "trigger sample"@) {
        None => Ok(None),
        Some(text) => match parsed_unsigned(text, u64::MAX as int) {
            Some(sample) => Ok(Some(sample as u64)),
            None => Err(FileErrorView::ParseError("invalid device X.trigger sample"@)),
        },
    }
}

/// Whether an archive holds no sample file of a session.
pub open spec fn no_parts(capturefile: Seq<char>, names: Seq<Seq<char>>) -> bool {
    forall|index: int| !#[trigger] is_part(capturefile, names, index)
}

/// Plans what is read of a session whose layout is known. `rate_is_valid` tells whether its sample
/// rate could be read; `names` are the files of the archive.
pub fn plan_session(
    entries: &Vec<IniEntry>,
    layout: &SessionLayout,
    rate_is_valid: bool,
    names: &Vec<Vec<char>>,
) -> (result: Result<SessionPlan, CaptureFileError>)
    ensures
        !rate_is_valid ==> (result matches Err(error) && error@ == FileErrorView::ParseError(
            "Invalid sample rate: "@ + layout.samplerate@,
        )),
        rate_is_valid ==> match trigger_of(entry_views(entries@), layout.device@) {
            Err(expected) => result matches Err(error) && error@ == expected,
            Ok(trigger) => if no_parts(layout.capturefile@, char_views(names@)) {
                result matches Err(error) && error@ == FileErrorView::ParseError(
                    "no "@ + layout.capturefile@ + " logic data found"@,
                )
            } else {
                result matches Ok(plan) && plan.trigger_sample == trigger && is_part_order(
                    layout.capturefile@,
                    char_views(names@),
                    plan.parts@,
                )
            },
        },
{
    if !rate_is_valid {
        return Err(labelled_error("Invalid sample rate: ", layout.samplerate.as_slice()));
    }
    let trigger_sample: Option<u64> = match lookup(
        entries,
        layout.device.as_slice(),
        to_chars("trigger sample").as_slice(),
    ) {
        None => None,
        Some(text) => match parse_unsigned(text.as_slice(), u64::MAX) {
            Some(sample) => Some(sample),
            None => {
                return Err(parse_error("invalid device X.trigger sample"));
            },
        },
    };
    let parts: Vec<usize> = order_parts(layout.capturefile.as_slice(), names);
    if parts.len() == 0 {
        assert forall|index: int| !#[trigger] is_part(
            layout.capturefile@,
            char_views(names@),
            index,
        ) by {
            if is_part(layout.capturefile@, char_views(names@), index) {
                assert(parts@.contains(index as usize));
            }
        }
        return Err(joined_error("no ", layout.capturefile.as_slice(), " logic data found"));
    }
    assert(is_part(layout.capturefile@, char_views(names@), parts@[0] as int));
    Ok(SessionPlan { trigger_sample, parts })
}

/// The name of a probe: the one that the device gives it, counted from one, or its number.
pub open spec fn probe_name(entries: Seq<EntryView>, device: Seq<char>, probe: int) -> Seq<char> {
    match value_of(entries, device, "probe"@ + decimal((probe + 1) as nat)) {
        Some(name) => name,
        None => "Probe "@ + decimal(probe as nat),
    }
}

/// A session's samples, decoded.
#[derive(Debug)]
pub struct SigrokCapture {
    pub header: CaptureMetadata,
    pub samples: Vec<u8>,
    pub unitsize: usize,
}

impl SigrokCapture {
    /// Every sample is there and has room for each probe.
    pub open spec fn wf(&self) -> bool {
        &&& 0 < self.unitsize
        &&& 0 < self.header.total_samples
        &&& self.samples@.len() == self.header.total_samples * self.unitsize
        &&& self.header.total_probes <= 8 * self.unitsize
    }

    /// The level of a probe at a sample.
    pub open spec fn level(&self, channel: int, position: int) -> bool {
        byte_bit(self.samples@[position * self.unitsize + channel / 8], channel % 8)
    }

    /// Takes the samples of a session in.
    pub fn open(
        entries: &Vec<IniEntry>,
        layout: &SessionLayout,
        trigger_sample: Option<u64>,
        samples: Vec<u8>,
    ) -> (result: Result<SigrokCapture, CaptureFileError>)
        requires
            layout@.wf(),
        ensures
            if samples@.len() % (layout.unitsize as nat) != 0 {
                result matches Err(error) && error@ == FileErrorView::ParseError(
                    "logic data size "@ + decimal(samples@.len()) + " is not divisible by unitsize "@
                        + decimal(layout.unitsize as nat) + ""@,
                )
            } else if samples@.len() == 0 {
                result matches Err(error) && error@ == FileErrorView::ParseError(
                    "logic data contains no samples"@,
                )
            } else {
                &&& result matches Ok(capture)
                &&& capture.wf()
                &&& capture.samples == samples
                &&& capture.unitsize == layout.unitsize
                &&& capture.header@ == (MetadataView {
                    total_probes: layout.total_probes,
                    samplerate: layout.samplerate@,
                    total_samples: (samples@.len() / (layout.unitsize as nat)) as u64,
                    total_blocks: 1,
                    samples_per_block: (samples@.len() / (layout.unitsize as nat)) as u64,
                    probe_names: Seq::new(
                        layout.total_probes as nat,
                        |probe: int| probe_name(entry_views(entries@), layout.device@, probe),
                    ),
                    trigger_sample,
                })
            },
    {
        let size: usize = samples.len();
        if size % layout.unitsize != 0 {
            return Err(
                numbers_error(
                    "logic data size ",
                    size as u64,
                    " is not divisible by unitsize ",
                    layout.unitsize as u64,
                    "",
                ),
            );
        }
        let total_samples: u64 = (size / layout.unitsize) as u64;
        proof {
            vstd::arithmetic::div_mod::lemma_fundamental_div_mod(
                size as int,
                layout.unitsize as int,
            );
            assert(total_samples * layout.unitsize == layout.unitsize * total_samples)
                by (nonlinear_arith);
            assert(total_samples == 0 <==> size == 0) by (nonlinear_arith)
                requires
                    size == layout.unitsize * total_samples,
                    0 < layout.unitsize,
            ;
        }
        if total_samples == 0 {
            return Err(parse_error("logic data contains no samples"));
        }
        let ghost views = entry_views(entries@);
        let mut probe_names: Vec<String> = Vec::new();
        let mut probe: usize = 0;
        while probe < layout.total_probes
            invariant
                probe <= layout.total_probes,
                views == entry_views(entries@),
                name_views(probe_names@) =~= Seq::new(
                    probe as nat,
                    |probe: int| probe_name(views, layout.device@, probe),
                ),
            decreases layout.total_probes - probe,
        {
            let mut key: Vec<char> = to_chars("probe");
            append_chars(&mut key, decimal_chars(probe as u64 + 1).as_slice());
            let name: Vec<char> = match lookup(entries, layout.device.as_slice(), key.as_slice()) {
                Some(name) => name,
                None => {
                    let mut name: Vec<char> = to_chars("Probe ");
                    append_chars(&mut name, decimal_chars(probe as u64).as_slice());
                    name
                },
            };
            assert(name@ == probe_name(views, layout.device@, probe as int));
            let ghost before = probe_names@;
            let name: String = from_chars(name.as_slice());
            let ghost view = name@;
            probe_names.push(name);
            assert(name_views(probe_names@) =~= name_views(before).push(view));
            probe += 1;
        }
        Ok(
            SigrokCapture {
                header: CaptureMetadata {
                    total_probes: layout.total_probes,
                    samplerate: from_chars(layout.samplerate.as_slice()),
                    total_samples,
                    total_blocks: 1,
                    samples_per_block: total_samples,
                    probe_names,
                    trigger_sample,
                },
                samples,
                unitsize: layout.unitsize,
            },
        )
    }

    proof fn lemma_inside(&self, channel: int, position: int)
        requires
            self.wf(),
            0 <= channel < 8 * self.unitsize,
            0 <= position < self.header.total_samples,
        ensures
            0 <= position * self.unitsize <= position * self.unitsize + channel / 8
                < self.samples@.len(),
    {
        assert(0 <= position * self.unitsize && position * self.unitsize + self.unitsize
            <= self.header.total_samples * self.unitsize) by (nonlinear_arith)
            requires
                0 <= position < self.header.total_samples,
                0 < self.unitsize,
        ;
    }

    fn value_at(&self, channel: usize, position: usize) -> (result: bool)
        requires
            self.wf(),
            channel < self.header.total_probes,
            position < self.header.total_samples,
        ensures
            result == self.level(channel as int, position as int),
    {
        let len: usize = self.samples.len();
        proof {
            self.lemma_inside(channel as int, position as int);
        }
        let byte: u8 = self.samples[position * self.unitsize + channel / 8];
        let offset: u8 = (channel % 8) as u8;
        (byte >> offset) & 1 == 1
    }

    /// Reads the level of a probe at a sample.
    pub fn read_sample(&self, channel: usize, position: u64) -> (result: Result<
        bool,
        CaptureFileError,
    >)
        requires
            self.wf(),
        ensures
            if channel >= self.header.total_probes {
                result matches Err(error) && error@ == FileErrorView::InvalidProbe(channel)
            } else if position >= self.header.total_samples {
                result matches Err(error) && error@ == FileErrorView::OutOfBounds(position)
            } else {
                result == Ok::<bool, CaptureFileError>(self.level(channel as int, position as int))
            },
    {
        if channel >= self.header.total_probes {
            return Err(CaptureFileError::InvalidProbe(channel));
        }
        if position >= self.header.total_samples {
            return Err(CaptureFileError::OutOfBounds(position));
        }
        let len: usize = self.samples.len();
        proof {
            self.lemma_fits();
        }
        Ok(self.value_at(channel, position as usize))
    }

    proof fn lemma_fits(&self)
        requires
            self.wf(),
        ensures
            self.header.total_samples <= self.samples@.len(),
    {
        assert(self.header.total_samples <= self.header.total_samples * self.unitsize)
            by (nonlinear_arith)
            requires
                0 < self.unitsize,
        ;
    }

    /// Packs all the levels of a probe: they form a single block.
    pub fn read_packed_block(&self, channel: usize, block: u64) -> (result: Result<
        Vec<u8>,
        CaptureFileError,
    >)
        requires
            self.wf(),
        ensures
            if channel >= self.header.total_probes {
                result matches Err(error) && error@ == FileErrorView::InvalidProbe(channel)
            } else if block != 0 {
                result matches Err(error) && error@ == FileErrorView::InvalidBlock(block)
            } else {
                &&& result matches Ok(packed)
                &&& packed@.len() == bytes_for(self.header.total_samples as int)
                &&& forall|j: int|
                    0 <= j < 8 * packed@.len() ==> #[trigger] bit_of(packed@, j) == (j
                        < self.header.total_samples && self.level(channel as int, j))
            },
    {
        if channel >= self.header.total_probes {
            return Err(CaptureFileError::InvalidProbe(channel));
        }
        if block != 0 {
            return Err(CaptureFileError::InvalidBlock(block));
        }
        let len: usize = self.samples.len();
        proof {
            self.lemma_fits();
        }
        let samples: usize = self.header.total_samples as usize;
        let mut packed: Vec<u8> = zero_bytes(packed_len(samples));
        let mut sample: usize = 0;
        while sample < samples
            invariant
                sample <= samples,
                samples == self.header.total_samples,
                self.wf(),
                channel < self.header.total_probes,
                packed@.len() == bytes_for(samples as int),
                samples <= 8 * packed@.len(),
                forall|j: int|
                    0 <= j < 8 * packed@.len() ==> #[trigger] bit_of(packed@, j) == (j < sample
                        && self.level(channel as int, j)),
            decreases samples - sample,
        {
            if self.value_at(channel, sample) {
                set_packed_bit(&mut packed, sample);
            }
            sample += 1;
        }
        Ok(packed)
    }

    /// The levels of a probe.
    pub open spec fn levels(&self, channel: int) -> Seq<bool> {
        Seq::new(self.header.total_samples as nat, |position: int| self.level(channel, position))
    }

    /// Reads all the levels of a probe.
    pub fn channel_levels(&self, channel: usize) -> (result: Vec<bool>)
        requires
            self.wf(),
            channel < self.header.total_probes,
        ensures
            result@ == self.levels(channel as int),
    {
        let len: usize = self.samples.len();
        proof {
            self.lemma_fits();
        }
        let samples: usize = self.header.total_samples as usize;
        let mut levels: Vec<bool> = Vec::new();
        let mut sample: usize = 0;
        while sample < samples
            invariant
                sample <= samples,
                samples == self.header.total_samples,
                self.wf(),
                channel < self.header.total_probes,
                levels@ =~= self.levels(channel as int).take(sample as int),
            decreases samples - sample,
        {
            levels.push(self.value_at(channel, sample));
            sample += 1;
        }
        levels
    }

    /// Lists the changes of a probe whose samples are `step` nanoseconds apart.
    pub fn channel_changes(&self, channel: usize, step: u64) -> (result: Vec<Sample>)
        requires
            self.wf(),
            channel < self.header.total_probes,
            times_fit(self.levels(channel as int), step as int),
        ensures
            result@ == changes_of(self.levels(channel as int), step as int),
    {
        list_changes(&self.channel_levels(channel), step)
    }
}

/// The bytes of one sample of a session.
pub open spec fn sample_bytes(capture: SigrokCapture, position: int) -> Seq<u8> {
    capture.samples@.subrange(
        position * capture.unitsize,
        position * capture.unitsize + capture.unitsize,
    )
}

/// A sample is a little-endian number of as many bytes as the unit has, the samples stand one behind
/// the other, and the level of a probe is the binary digit of that number with the probe's index.
pub proof fn law_level_is_a_digit_of_the_sample(
    capture: SigrokCapture,
    channel: int,
    position: int,
)
    requires
        capture.wf(),
        0 <= channel < 8 * capture.unitsize,
        0 <= position < capture.header.total_samples,
    ensures
        capture.level(channel, position) <==> number_bit(
            bytes_number(sample_bytes(capture, position)) as int,
            channel as nat,
        ),
{
    capture.lemma_inside(channel, position);
    capture.lemma_inside(8 * capture.unitsize - 1, position);
    let bytes = sample_bytes(capture, position);
    law_packed_bits_are_binary_digits(bytes, channel);
    assert(bytes[channel / 8] == capture.samples@[position * capture.unitsize + channel / 8]);
}

/// The levels of the probes, each weighed with the power of two of its index, sum up to the number
/// that the bytes of the sample make, up to the digits beyond the probes.
pub proof fn law_levels_sum_up_to_the_sample(capture: SigrokCapture, position: int)
    requires
        capture.wf(),
        0 <= position < capture.header.total_samples,
    ensures
        level_sum(
            |channel: int| capture.level(channel, position),
            capture.header.total_probes as nat,
        ) == bytes_number(sample_bytes(capture, position)) % pow2(
            capture.header.total_probes as nat,
        ),
{
    let levels = |channel: int| capture.level(channel, position);
    let number = bytes_number(sample_bytes(capture, position));
    assert forall|i: int| 0 <= i < capture.header.total_probes implies #[trigger] levels(i)
        == number_bit(number as int, i as nat) by {
        law_level_is_a_digit_of_the_sample(capture, i, position);
    }
    lemma_digits_sum_up(levels, number, capture.header.total_probes as nat);
}

/// A session as a source of level changes, one output for each of its first channels.
#[derive(Debug)]
pub struct SigrokFileSource {
    pub name: String,
    pub capture: SigrokCapture,
    pub num_channels: u8,
    pub spawned: bool,
    pub num_threads: usize,
}

impl SigrokFileSource {
    /// The capture is complete and has each channel.
    pub open spec fn wf(&self) -> bool {
        self.capture.wf() && self.num_channels <= self.capture.header.total_probes
    }

    /// A source of the first `num_channels` probes.
    pub fn new(capture: SigrokCapture, num_channels: u8) -> (result: SigrokFileSource)
        requires
            capture.wf(),
            num_channels <= capture.header.total_probes,
        ensures
            result.wf(),
            result.name@ == "sigrok_file_source"@,
            result.capture == capture,
            result.num_channels == num_channels,
            !result.spawned,
            result.num_threads == 0,
    {
        SigrokFileSource {
            name: owned("sigrok_file_source"),
            capture,
            num_channels,
            spawned: false,
            num_threads: 0,
        }
    }

    /// The same source under another name.
    pub fn with_name(self, name: &str) -> (result: SigrokFileSource)
        ensures
            result.name@ == name@,
            result.capture == self.capture,
            result.num_channels == self.num_channels,
            result.spawned == self.spawned,
            result.num_threads == self.num_threads,
    {
        let mut result = self;
        result.name = owned(name);
        result
    }

    /// What the file says of itself.
    pub fn header(&self) -> (result: &CaptureMetadata)
        ensures
            *result == self.capture.header,
    {
        &self.capture.header
    }

    /// A source has no inputs.
    pub fn num_inputs(&self) -> (result: usize)
        ensures
            result == 0,
    {
        0
    }

    /// One output for each channel.
    pub fn num_outputs(&self) -> (result: usize)
        ensures
            result == self.num_channels,
    {
        self.num_channels as usize
    }

    /// The name of an output.
    pub fn output_name(channel: u8) -> (result: String)
        ensures
            result@ == "ch"@ + decimal(channel as nat),
    {
        numbered("ch", channel as usize)
    }

    /// The outputs in order.
    pub fn output_schema(&self) -> (result: Vec<PortSchema>)
        ensures
            port_views(result@) == listed(
                Seq::new(
                    self.num_channels as nat,
                    |i: int| ("ch"@ + decimal(i as nat), PortKind::Sample),
                ),
            ),
    {
        let ghost all = listed(
            Seq::new(
                self.num_channels as nat,
                |i: int| ("ch"@ + decimal(i as nat), PortKind::Sample),
            ),
        );
        let mut result: Vec<PortSchema> = Vec::new();
        assert(port_views(result@) =~= all.take(0));
        let mut channel: u8 = 0;
        while channel < self.num_channels
            invariant
                channel <= self.num_channels,
                all == listed(
                    Seq::new(
                        self.num_channels as nat,
                        |i: int| ("ch"@ + decimal(i as nat), PortKind::Sample),
                    ),
                ),
                result@.len() == channel,
                port_views(result@) == all.take(channel as int),
            decreases self.num_channels - channel,
        {
            add_port(&mut result, Self::output_name(channel), PortKind::Sample);
            assert(all.take(channel as int).push(all[channel as int]) =~= all.take(channel + 1));
            channel += 1;
        }
        assert(all.take(channel as int) =~= all);
        result
    }

    /// Notes that the streams have been started, which can be done once. Tells whether it was.
    pub fn start(&mut self) -> (result: bool)
        ensures
            result == !old(self).spawned,
            *final(self) == (SigrokFileSource { spawned: true, ..*old(self) }),
    {
        let first: bool = !self.spawned;
        self.spawned = true;
        first
    }

    /// Notes how many streams have been started.
    pub fn started(&mut self, threads: usize)
        ensures
            *final(self) == (SigrokFileSource { num_threads: threads, ..*old(self) }),
    {
        self.num_threads = threads;
    }

    /// Whether every stream has ended.
    pub fn should_stop(&self, completed: usize) -> (result: bool)
        ensures
            result == (self.spawned && completed >= self.num_threads),
    {
        self.spawned && completed >= self.num_threads
    }
}

/// The path of the index beside a capture.
pub open spec fn sidecar_of(path: Seq<char>) -> Seq<char> {
    with_file_name(
        path,
        (match file_name_of(path) {
            Some(name) => name,
            None => "capture.sr"@,
        }) + ".idx"@,
    )
}

/// The path of the index beside a capture: that of the capture, or a default name in its place,
/// and a suffix.
pub fn sigrok_sidecar_path(path: &str) -> (result: String)
    ensures
        result@ == sidecar_of(path@),
{
    let path: Vec<char> = to_chars(path);
    let mut name: Vec<char> = match file_name(path.as_slice()) {
        Some(name) => name,
        None => to_chars("capture.sr"),
    };
    append_chars(&mut name, to_chars(".idx").as_slice());
    from_chars(replace_file_name(path.as_slice(), name.as_slice()).as_slice())
}

/// The sample files are read in the order of their numbers, none of them twice and none left out.
pub proof fn law_parts_are_read_in_order(
    capturefile: Seq<char>,
    names: Seq<Seq<char>>,
    order: Seq<usize>,
    j: int,
    k: int,
    index: int,
)
    requires
        names.len() <= usize::MAX,
        is_part_order(capturefile, names, order),
        0 <= j < k < order.len(),
        0 <= index < names.len(),
    ensures
        order[j] != order[k],
        order[j] < names.len(),
        part_number(capturefile, names[order[j] as int]) is Some,
        part_number(capturefile, names[order[k] as int]) is Some,
        part_number(capturefile, names[order[j] as int])->0 <= part_number(
            capturefile,
            names[order[k] as int],
        )->0,
        order.contains(index as usize) <==> part_number(capturefile, names[index]) is Some,
{
    assert(is_part(capturefile, names, order[j] as int));
    assert(is_part(capturefile, names, order[k] as int));
    assert(part_before(capturefile, names, order[j] as int, order[k] as int));
    if part_number(capturefile, names[index]) is Some {
        assert(is_part(capturefile, names, index));
    }
    if order.contains(index as usize) {
        let place = choose|place: int| 0 <= place < order.len() && order[place] == index as usize;
        assert(is_part(capturefile, names, order[place] as int));
    }
}

} // verus!
