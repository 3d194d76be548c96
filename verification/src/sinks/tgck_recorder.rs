//! Line-boundary recorder.
//!
//! For every cycle of the line clock it records where the line boundary fell in the captured byte
//! stream: byte index and time of the rising and the falling edge, and the first data word after
//! each. It writes no file: it gives the lines of a CSV file and the name of that file.

use vstd::prelude::*;

use crate::paths::{
    file_name, file_name_of, file_stem, file_stem_of, replace_file_name, with_file_name,
};
use crate::ports::{list_ports, listed, port_views, PortKind, PortSchema};
use crate::streams::{Sample, TextSample};
use crate::text::{append_chars, decimal, decimal_chars, from_chars, owned, to_chars};

verus! {

/// One complete clock cycle, positioned within the current capture window.
#[derive(Debug, Clone, Copy, PartialEq, Eq, Structural)]
pub struct TgckRecord {
    pub rising_byte_index: usize,
    pub rising_timestamp: u64,
    pub falling_byte_index: usize,
    pub falling_timestamp: u64,
    pub first_word_after_rising_byte_index: usize,
    pub first_word_after_rising_timestamp: u64,
    pub first_word_after_falling_byte_index: usize,
    pub first_word_after_falling_timestamp: u64,
}

/// The first line of a file.
pub open spec fn csv_header() -> Seq<char> {
    "rising_byte_index,rising_timestamp,falling_byte_index,falling_timestamp,first_clock_rising_byte_index,first_clock_rising_timestamp,first_clock_falling_byte_index,first_clock_falling_timestamp"@
}

/// The line of a record: its eight numbers between commas.
pub open spec fn csv_line(record: TgckRecord) -> Seq<char> {
    decimal(record.rising_byte_index as nat) + ","@ + decimal(record.rising_timestamp as nat) + ","@
        + decimal(record.falling_byte_index as nat) + ","@ + decimal(
        record.falling_timestamp as nat,
    ) + ","@ + decimal(record.first_word_after_rising_byte_index as nat) + ","@ + decimal(
        record.first_word_after_rising_timestamp as nat,
    ) + ","@ + decimal(record.first_word_after_falling_byte_index as nat) + ","@ + decimal(
        record.first_word_after_falling_timestamp as nat,
    )
}

fn append_number(line: &mut Vec<char>, number: u64)
    ensures
        final(line)@ == old(line)@ + ","@ + decimal(number as nat),
{
    append_chars(line, to_chars(",").as_slice());
    append_chars(line, decimal_chars(number).as_slice());
}

impl TgckRecord {
    /// The line of this record.
    pub fn csv_row(&self) -> (result: String)
        ensures
            result@ == csv_line(*self),
    {
        let mut line: Vec<char> = decimal_chars(self.rising_byte_index as u64);
        append_number(&mut line, self.rising_timestamp);
        append_number(&mut line, self.falling_byte_index as u64);
        append_number(&mut line, self.falling_timestamp);
        append_number(&mut line, self.first_word_after_rising_byte_index as u64);
        append_number(&mut line, self.first_word_after_rising_timestamp);
        append_number(&mut line, self.first_word_after_falling_byte_index as u64);
        append_number(&mut line, self.first_word_after_falling_timestamp);
        from_chars(line.as_slice())
    }
}

/// The path of the CSV file that goes with a capture file: beside it, named after its stem.
pub open spec fn csv_path(filename: Seq<char>) -> Seq<char> {
    with_file_name(
        filename,
        (match file_name_of(filename) {
            Some(name) => file_stem_of(name),
            None => "capture"@,
        }) + "_tgck.csv"@,
    )
}

/// `output/capture_0001.bin` becomes `output/capture_0001_tgck.csv`.
pub fn tgck_csv_path(filename: &str) -> (result: String)
    ensures
        result@ == csv_path(filename@),
{
    let path: Vec<char> = to_chars(filename);
    let mut name: Vec<char> = match file_name(path.as_slice()) {
        Some(name) => file_stem(name.as_slice()),
        None => to_chars("capture"),
    };
    append_chars(&mut name, to_chars("_tgck.csv").as_slice());
    from_chars(replace_file_name(path.as_slice(), name.as_slice()).as_slice())
}

/// The cycles seen under one file name.
#[derive(Debug)]
pub struct Window {
    pub words: usize,
    pub records: Vec<TgckRecord>,
    pub current_rising: Option<(usize, u64)>,
    pub current_falling: Option<(usize, u64)>,
    pub first_after_rising: Option<(usize, u64)>,
    pub first_after_falling: Option<(usize, u64)>,
    pub need_after_rising: bool,
    pub need_after_falling: bool,
}

/// A window seen through its records.
pub struct WindowView {
    pub words: usize,
    pub records: Seq<TgckRecord>,
    pub current_rising: Option<(usize, u64)>,
    pub current_falling: Option<(usize, u64)>,
    pub first_after_rising: Option<(usize, u64)>,
    pub first_after_falling: Option<(usize, u64)>,
    pub need_after_rising: bool,
    pub need_after_falling: bool,
}

impl View for Window {
    type V = WindowView;

    open spec fn view(&self) -> WindowView {
        WindowView {
            words: self.words,
            records: self.records@,
            current_rising: self.current_rising,
            current_falling: self.current_falling,
            first_after_rising: self.first_after_rising,
            first_after_falling: self.first_after_falling,
            need_after_rising: self.need_after_rising,
            need_after_falling: self.need_after_falling,
        }
    }
}

/// A place, or the very beginning where there is none.
pub open spec fn place_or_start(place: Option<(usize, u64)>) -> (usize, u64) {
    match place {
        Some(place) => place,
        None => (0, 0),
    }
}

/// A window that has seen nothing.
pub open spec fn empty_window() -> WindowView {
    WindowView {
        words: 0,
        records: Seq::empty(),
        current_rising: None,
        current_falling: None,
        first_after_rising: None,
        first_after_falling: None,
        need_after_rising: false,
        need_after_falling: false,
    }
}

impl WindowView {
    /// The window with the cycle under way turned into a record. A record needs both edges of the
    /// cycle; where no word came behind an edge, its place stands as zero.
    pub open spec fn finalized(self) -> WindowView {
        WindowView {
            current_rising: None,
            current_falling: None,
            first_after_rising: None,
            first_after_falling: None,
            need_after_rising: false,
            need_after_falling: false,
            records: match (self.current_rising, self.current_falling) {
                (Some(rising), Some(falling)) => {
                    let after_rising = place_or_start(self.first_after_rising);
                    let after_falling = place_or_start(self.first_after_falling);
                    self.records.push(
                        TgckRecord {
                            rising_byte_index: rising.0,
                            rising_timestamp: rising.1,
                            falling_byte_index: falling.0,
                            falling_timestamp: falling.1,
                            first_word_after_rising_byte_index: after_rising.0,
                            first_word_after_rising_timestamp: after_rising.1,
                            first_word_after_falling_byte_index: after_falling.0,
                            first_word_after_falling_timestamp: after_falling.1,
                        },
                    )
                },
                _ => self.records,
            },
            words: self.words,
        }
    }

    /// The lines of the window: the header and one line for each record, or nothing where there
    /// is no record.
    pub open spec fn lines(self) -> Seq<Seq<char>> {
        if self.records.len() == 0 {
            Seq::empty()
        } else {
            seq![csv_header()] + self.records.map_values(|record: TgckRecord| csv_line(record))
        }
    }

    /// The window behind a clock edge.
    pub open spec fn clocked(self, last: bool, edge: Sample) -> WindowView {
        if edge.value && !last {
            WindowView {
                current_rising: Some((self.words, edge.start_time_ns)),
                need_after_rising: true,
                ..self.finalized()
            }
        } else if !edge.value && last {
            WindowView {
                current_falling: Some((self.words, edge.start_time_ns)),
                need_after_falling: true,
                ..self
            }
        } else {
            self
        }
    }

    /// The window behind a word.
    pub open spec fn worded(self, position: u64) -> WindowView {
        WindowView {
            first_after_rising: if self.need_after_rising {
                Some((self.words, position))
            } else {
                self.first_after_rising
            },
            first_after_falling: if self.need_after_falling {
                Some((self.words, position))
            } else {
                self.first_after_falling
            },
            need_after_rising: false,
            need_after_falling: false,
            words: (self.words + 1) as usize,
            ..self
        }
    }
}

fn exec_place_or_start(place: Option<(usize, u64)>) -> (result: (usize, u64))
    ensures
        result == place_or_start(place),
{
    match place {
        Some(place) => place,
        None => (0, 0),
    }
}

impl Window {
    /// A window that has seen nothing.
    pub fn new() -> (result: Self)
        ensures
            result@ == empty_window(),
    {
        let records: Vec<TgckRecord> = Vec::new();
        assert(records@ =~= Seq::<TgckRecord>::empty());
        Window {
            words: 0,
            records,
            current_rising: None,
            current_falling: None,
            first_after_rising: None,
            first_after_falling: None,
            need_after_rising: false,
            need_after_falling: false,
        }
    }

    /// Turns the cycle under way into a record.
    pub fn finalize_record(&mut self)
        ensures
            final(self)@ == old(self)@.finalized(),
    {
        if let (Some((rising_index, rising_ts)), Some((falling_index, falling_ts))) = (
            self.current_rising,
            self.current_falling,
        ) {
            let (after_rising_index, after_rising_ts): (usize, u64) = exec_place_or_start(
                self.first_after_rising,
            );
            let (after_falling_index, after_falling_ts): (usize, u64) = exec_place_or_start(
                self.first_after_falling,
            );
            self.records.push(
                TgckRecord {
                    rising_byte_index: rising_index,
                    rising_timestamp: rising_ts,
                    falling_byte_index: falling_index,
                    falling_timestamp: falling_ts,
                    first_word_after_rising_byte_index: after_rising_index,
                    first_word_after_rising_timestamp: after_rising_ts,
                    first_word_after_falling_byte_index: after_falling_index,
                    first_word_after_falling_timestamp: after_falling_ts,
                },
            );
        }
        self.current_rising = None;
        self.current_falling = None;
        self.first_after_rising = None;
        self.first_after_falling = None;
        self.need_after_rising = false;
        self.need_after_falling = false;
    }

    /// The lines of the window, or nothing where it never saw a complete cycle.
    pub fn csv_lines(&self) -> (result: Option<Vec<String>>)
        ensures
            match result {
                Some(lines) => self@.records.len() > 0 && lines@.map_values(|line: String| line@)
                    == self@.lines(),
                None => self@.records.len() == 0,
            },
    {
        if self.records.len() == 0 {
            return None;
        }
        let mut lines: Vec<String> = Vec::new();
        lines.push(
            owned(
                "rising_byte_index,rising_timestamp,falling_byte_index,falling_timestamp,first_clock_rising_byte_index,first_clock_rising_timestamp,first_clock_falling_byte_index,first_clock_falling_timestamp",
            ),
        );
        let mut index: usize = 0;
        let ghost expected = self@.lines();
        assert(lines@.map_values(|line: String| line@) =~= expected.take(1));
        while index < self.records.len()
            invariant
                index <= self.records@.len(),
                self.records@.len() > 0,
                expected == self@.lines(),
                lines@.map_values(|line: String| line@) == expected.take(index + 1),
            decreases self.records@.len() - index,
        {
            let ghost before = lines@;
            lines.push(self.records[index].csv_row());
            proof {
                assert(lines@.map_values(|line: String| line@) =~= before.map_values(
                    |line: String| line@,
                ).push(lines@.last()@));
                assert(expected.take(index + 1).push(expected[index + 1]) =~= expected.take(
                    index + 2,
                ));
                assert(expected[index + 1] == csv_line(self.records@[index as int]));
            }
            index += 1;
        }
        assert(expected.take(index + 1) =~= expected);
        Some(lines)
    }

    fn clock(&mut self, last: bool, edge: Sample)
        ensures
            final(self)@ == old(self)@.clocked(last, edge),
    {
        if edge.value && !last {
            self.finalize_record();
            self.current_rising = Some((self.words, edge.start_time_ns));
            self.need_after_rising = true;
        }
        if !edge.value && last {
            self.current_falling = Some((self.words, edge.start_time_ns));
            self.need_after_falling = true;
        }
    }

    fn word(&mut self, position: u64)
        requires
            old(self).words < usize::MAX,
        ensures
            final(self)@ == old(self)@.worded(position),
    {
        if self.need_after_rising {
            self.first_after_rising = Some((self.words, position));
            self.need_after_rising = false;
        }
        if self.need_after_falling {
            self.first_after_falling = Some((self.words, position));
            self.need_after_falling = false;
        }
        self.words = self.words + 1;
    }
}

/// A new file name, and the name of the CSV file that goes with it.
#[derive(Debug)]
pub struct NameChange {
    pub name: String,
    pub csv_name: String,
    pub start_time_ns: u64,
}

/// A name change seen through its texts.
pub struct NameView {
    pub name: Seq<char>,
    pub csv_name: Seq<char>,
    pub start_time_ns: u64,
}

impl View for NameChange {
    type V = NameView;

    open spec fn view(&self) -> NameView {
        NameView {
            name: self.name@,
            csv_name: self.csv_name@,
            start_time_ns: self.start_time_ns,
        }
    }
}

/// A text at a time.
pub struct LineView {
    pub text: Seq<char>,
    pub time: u64,
}

/// Emitted texts seen through their characters.
pub open spec fn line_views(samples: Seq<TextSample>) -> Seq<LineView> {
    samples.map_values(
        |sample: TextSample| LineView { text: sample.value@, time: sample.start_time_ns },
    )
}

/// Correlates line-clock edges with the captured byte stream.
///
/// A window opens at the first word after a file name and closes, giving its lines, at the next
/// name or at the end of the words. Clock edges outside an open window are ignored.
#[derive(Debug)]
pub struct TgckRecorder {
    pub name: String,
    pub window: Option<Window>,
    pub current_filename: Option<String>,
    pub pending_names: Vec<NameChange>,
    pub last_tgck: bool,
    /// Time of the last word, for the lines of the window that the end of the words closes.
    pub last_position: u64,
}

/// A recorder seen through its texts and records.
pub struct RecorderView {
    pub window: Option<WindowView>,
    pub current_filename: Option<Seq<char>>,
    pub pending_names: Seq<NameView>,
    pub last_tgck: bool,
    pub last_position: u64,
}

/// Pending names seen through their texts.
pub open spec fn name_views(names: Seq<NameChange>) -> Seq<NameView> {
    names.map_values(|name: NameChange| name@)
}

impl View for TgckRecorder {
    type V = RecorderView;

    open spec fn view(&self) -> RecorderView {
        RecorderView {
            window: match self.window {
                Some(window) => Some(window@),
                None => None,
            },
            current_filename: match self.current_filename {
                Some(name) => Some(name@),
                None => None,
            },
            pending_names: name_views(self.pending_names@),
            last_tgck: self.last_tgck,
            last_position: self.last_position,
        }
    }
}

/// The lines that closing a window gives.
pub open spec fn closing_lines(window: Option<WindowView>, at: u64) -> Seq<LineView> {
    match window {
        None => Seq::empty(),
        Some(window) => window.finalized().lines().map_values(
            |text: Seq<char>| LineView { text, time: at },
        ),
    }
}

/// What taking over file names gives.
pub struct NamesTaken {
    pub recorder: RecorderView,
    pub rows: Seq<LineView>,
    pub filenames: Seq<LineView>,
}

impl RecorderView {
    /// The recorder once the file names up to a time have taken over, with the lines of the window
    /// that this closes and the names of the CSV files.
    pub open spec fn named(self, position: u64) -> NamesTaken
        decreases self.pending_names.len(),
    {
        if self.pending_names.len() == 0 || self.pending_names[0].start_time_ns > position {
            NamesTaken { recorder: self, rows: Seq::empty(), filenames: Seq::empty() }
        } else {
            let change = self.pending_names[0];
            let next = RecorderView {
                window: None,
                current_filename: Some(change.name),
                pending_names: self.pending_names.skip(1),
                ..self
            };
            let rest = next.named(position);
            NamesTaken {
                recorder: rest.recorder,
                rows: closing_lines(self.window, change.start_time_ns) + rest.rows,
                filenames: seq![
                    LineView { text: change.csv_name, time: change.start_time_ns },
                ] + rest.filenames,
            }
        }
    }

    /// The recorder behind the first `count` clock edges.
    pub open spec fn clocked(self, edges: Seq<Sample>, count: nat) -> RecorderView
        decreases count,
    {
        if count == 0 {
            self
        } else {
            let before = self.clocked(edges, (count - 1) as nat);
            let edge = edges[count - 1];
            RecorderView {
                window: match before.window {
                    Some(window) => Some(window.clocked(before.last_tgck, edge)),
                    None => None,
                },
                last_tgck: edge.value,
                ..before
            }
        }
    }

    /// The recorder behind a word. A word before any file name is not recorded.
    pub open spec fn worded(self, position: u64) -> RecorderView {
        match self.window {
            Some(window) => RecorderView { window: Some(window.worded(position)), ..self },
            None => if self.current_filename is None {
                self
            } else {
                RecorderView { window: Some(empty_window().worded(position)), ..self }
            },
        }
    }
}

/// Number of edges at the front that lie at or before a time.
pub open spec fn due_edges(edges: Seq<Sample>, position: u64) -> nat
    decreases edges.len(),
{
    if edges.len() == 0 || edges[0].start_time_ns > position {
        0
    } else {
        1 + due_edges(edges.skip(1), position)
    }
}

/// What one word comes to.
#[derive(Debug)]
pub enum TgckStep {
    /// The clock has not caught up with the word yet.
    NeedMore,
    /// The lines and file names to emit; the first `consumed` clock edges are used up.
    Done { rows: Vec<TextSample>, filenames: Vec<TextSample>, consumed: usize },
}

impl TgckRecorder {
    pub fn new() -> (result: Self)
        ensures
            result.name@ == "tgck_recorder"@,
            result@ == (RecorderView {
                window: None,
                current_filename: None,
                pending_names: Seq::empty(),
                last_tgck: false,
                last_position: 0,
            }),
    {
        let pending_names: Vec<NameChange> = Vec::new();
        assert(name_views(pending_names@) =~= Seq::<NameView>::empty());
        TgckRecorder {
            name: owned("tgck_recorder"),
            window: None,
            current_filename: None,
            pending_names,
            last_tgck: false,
            last_position: 0,
        }
    }

    pub fn with_name(self, name: String) -> (result: Self)
        ensures
            result == (TgckRecorder { name, ..self }),
    {
        TgckRecorder { name, ..self }
    }

    pub fn num_inputs(&self) -> (result: usize)
        ensures
            result == 3,
    {
        3
    }

    pub fn num_outputs(&self) -> (result: usize)
        ensures
            result == 2,
    {
        2
    }

    /// The inputs in order.
    pub fn input_schema(&self) -> (result: Vec<PortSchema>)
        ensures
            port_views(result@) == listed(seq![("words"@, PortKind::Word), ("tgck"@, PortKind::Sample), ("filename"@, PortKind::Text)]),
    {
        let ports: [(&str, PortKind); 3] = [("words", PortKind::Word), ("tgck", PortKind::Sample), ("filename", PortKind::Text)];
        let result: Vec<PortSchema> = list_ports(&ports);
        assert(port_views(result@) =~= listed(seq![("words"@, PortKind::Word), ("tgck"@, PortKind::Sample), ("filename"@, PortKind::Text)]));
        result
    }

    /// The outputs in order.
    pub fn output_schema(&self) -> (result: Vec<PortSchema>)
        ensures
            port_views(result@) == listed(seq![("rows"@, PortKind::Text), ("filename"@, PortKind::Text)]),
    {
        let ports: [(&str, PortKind); 2] = [("rows", PortKind::Text), ("filename", PortKind::Text)];
        let result: Vec<PortSchema> = list_ports(&ports);
        assert(port_views(result@) =~= listed(seq![("rows"@, PortKind::Text), ("filename"@, PortKind::Text)]));
        result
    }

    /// Queues a file name that has arrived.
    pub fn offer_name(&mut self, sample: TextSample)
        ensures
            final(self)@ == (RecorderView {
                pending_names: old(self)@.pending_names.push(
                    NameView {
                        name: sample.value@,
                        csv_name: csv_path(sample.value@),
                        start_time_ns: sample.start_time_ns,
                    },
                ),
                ..old(self)@
            }),
            final(self).name == old(self).name,
    {
        let ghost before = self.pending_names@;
        let csv_name: String = tgck_csv_path(sample.value.as_str());
        let change = NameChange {
            name: sample.value,
            csv_name,
            start_time_ns: sample.start_time_ns,
        };
        let ghost added = change@;
        self.pending_names.push(change);
        assert(name_views(self.pending_names@) =~= name_views(before).push(added));
    }

    /// Closes the window and appends its lines.
    fn close_window(&mut self, rows: &mut Vec<TextSample>, at: u64)
        ensures
            final(self).name == old(self).name,
            final(self)@ == (RecorderView { window: None, ..old(self)@ }),
            final(self).pending_names == old(self).pending_names,
            line_views(final(rows)@) == line_views(old(rows)@) + closing_lines(
                old(self)@.window,
                at,
            ),
    {
        let ghost before = line_views(rows@);
        let window: Option<Window> = self.window.take();
        match window {
            Some(window) => {
                let mut window = window;
                window.finalize_record();
                let ghost texts = window@.lines();
                let ghost expected = closing_lines(old(self)@.window, at);
                match window.csv_lines() {
                    Some(lines) => {
                        let mut lines = lines;
                        let ghost mut taken: int = 0;
                        assert(before + expected.take(0) =~= before);
                        while lines.len() > 0
                            invariant
                                0 <= taken <= texts.len(),
                                expected == texts.map_values(
                                    |text: Seq<char>| LineView { text, time: at },
                                ),
                                lines@.map_values(|line: String| line@) == texts.skip(taken),
                                line_views(rows@) == before + expected.take(taken),
                            decreases lines@.len(),
                        {
                            let ghost left = lines@;
                            let ghost done = rows@;
                            proof {
                                assert(texts.skip(taken).len() == left.len());
                                assert(texts.skip(taken)[0] == left[0]@);
                            }
                            let line: String = lines.remove(0);
                            rows.push(TextSample::new(line, at));
                            proof {
                                assert(lines@.map_values(|line: String| line@) =~= texts.skip(
                                    taken + 1,
                                )) by {
                                    assert(lines@ =~= left.skip(1));
                                    assert forall|i: int| 0 <= i < lines@.len() implies lines@[i]@
                                        == texts.skip(taken + 1)[i] by {
                                        assert(left.map_values(|line: String| line@)[i + 1]
                                            == left[i + 1]@);
                                    }
                                }
                                assert(line_views(rows@) =~= line_views(done).push(
                                    LineView { text: texts[taken], time: at },
                                ));
                                assert(before + expected.take(taken + 1) =~= (before
                                    + expected.take(taken)).push(expected[taken]));
                                taken = taken + 1;
                            }
                        }
                        proof {
                            assert(lines@.map_values(|line: String| line@).len() == 0);
                            assert(taken == texts.len());
                            assert(expected.take(taken) =~= expected);
                        }
                    },
                    None => {
                        assert(expected =~= Seq::<LineView>::empty());
                        assert(before + expected =~= before);
                    },
                }
            },
            None => {
                assert(before + Seq::<LineView>::empty() =~= before);
            },
        }
    }

    fn take_names(&mut self, position: u64, rows: &mut Vec<TextSample>, filenames: &mut Vec<
        TextSample,
    >)
        ensures
            final(self).name == old(self).name,
            final(self)@ == old(self)@.named(position).recorder,
            line_views(final(rows)@) == line_views(old(rows)@) + old(self)@.named(position).rows,
            line_views(final(filenames)@) == line_views(old(filenames)@) + old(self)@.named(
                position,
            ).filenames,
    {
        let ghost start = self@.named(position);
        let ghost first_rows = line_views(rows@);
        let ghost first_names = line_views(filenames@);
        while self.pending_names.len() > 0 && self.pending_names[0].start_time_ns <= position
            invariant
                self.name == old(self).name,
                start == old(self)@.named(position),
                first_rows == line_views(old(rows)@),
                first_names == line_views(old(filenames)@),
                self@.named(position).recorder == start.recorder,
                line_views(rows@) + self@.named(position).rows == first_rows + start.rows,
                line_views(filenames@) + self@.named(position).filenames == first_names
                    + start.filenames,
            decreases self.pending_names@.len(),
        {
            let ghost before = self@;
            let ghost rows_before = line_views(rows@);
            let ghost names_before = line_views(filenames@);
            let ghost samples_before = filenames@;
            let change: NameChange = self.pending_names.remove(0);
            proof {
                assert(before.pending_names[0] == change@);
                assert(name_views(self.pending_names@) =~= before.pending_names.skip(1));
            }
            let at: u64 = change.start_time_ns;
            self.close_window(rows, at);
            let ghost csv = change.csv_name@;
            filenames.push(TextSample::new(change.csv_name, at));
            self.current_filename = Some(change.name);
            proof {
                let rest = self@.named(position);
                assert(line_views(rows@) + rest.rows =~= rows_before + (closing_lines(
                    before.window,
                    at,
                ) + rest.rows));
                let added = LineView { text: csv, time: at };
                assert(line_views(filenames@) =~= names_before.push(added));
                assert(line_views(filenames@) + rest.filenames =~= names_before + (seq![added]
                    + rest.filenames));
            }
        }
        proof {
            assert(self.pending_names@.len() > 0 ==> self@.pending_names[0]
                == self.pending_names@[0]@);
            let ended = self@.named(position);
            assert(ended.rows =~= Seq::<LineView>::empty());
            assert(ended.filenames =~= Seq::<LineView>::empty());
            assert(line_views(rows@) + Seq::<LineView>::empty() =~= line_views(rows@));
            assert(line_views(filenames@) + Seq::<LineView>::empty() =~= line_views(filenames@));
        }
    }

    /// Records one word at a time: file names up to it take over first, then the clock edges up to
    /// it, then the word itself counts. The clock edges that have arrived are in `edges`;
    /// `clock_ended` tells that no more will come.
    pub fn work(&mut self, position: u64, edges: &[Sample], clock_ended: bool) -> (step: TgckStep)
        requires
            old(self).window matches Some(window) ==> window.words < usize::MAX,
        ensures
            final(self).name == old(self).name,
            ({
                let count = due_edges(edges@, position);
                if count == edges@.len() && !clock_ended {
                    step == TgckStep::NeedMore && final(self)@ == old(self)@
                } else {
                    let placed = RecorderView { last_position: position, ..old(self)@ };
                    let taken = placed.named(position);
                    &&& step matches TgckStep::Done { rows, filenames, consumed } && consumed
                        == count && line_views(rows@) == taken.rows && line_views(filenames@)
                        == taken.filenames
                    &&& final(self)@ == taken.recorder.clocked(edges@, count).worded(position)
                }
            }),
    {
        let mut count: usize = 0;
        assert(edges@.skip(0) =~= edges@);
        while count < edges.len() && edges[count].start_time_ns <= position
            invariant
                count <= edges@.len(),
                due_edges(edges@, position) == count + due_edges(
                    edges@.skip(count as int),
                    position,
                ),
            decreases edges@.len() - count,
        {
            assert(edges@.skip(count as int).skip(1) =~= edges@.skip(count + 1));
            count += 1;
        }
        assert(due_edges(edges@.skip(count as int), position) == 0);
        if count == edges.len() && !clock_ended {
            return TgckStep::NeedMore;
        }
        self.last_position = position;
        let mut rows: Vec<TextSample> = Vec::new();
        let mut filenames: Vec<TextSample> = Vec::new();
        let ghost placed = self@;
        self.take_names(position, &mut rows, &mut filenames);
        let ghost taken = placed.named(position);
        proof {
            assert(line_views(Seq::empty()) + taken.rows =~= taken.rows);
            assert(line_views(Seq::empty()) + taken.filenames =~= taken.filenames);
            lemma_window_words(placed, position);
        }
        let mut at: usize = 0;
        while at < count
            invariant
                self.name == old(self).name,
                at <= count <= edges@.len(),
                self@ == taken.recorder.clocked(edges@, at as nat),
                self.window matches Some(window) ==> window.words < usize::MAX,
            decreases count - at,
        {
            let edge: Sample = edges[at];
            let last: bool = self.last_tgck;
            let window: Option<Window> = self.window.take();
            match window {
                Some(window) => {
                    let mut window = window;
                    window.clock(last, edge);
                    self.window = Some(window);
                },
                None => {},
            }
            self.last_tgck = edge.value;
            at += 1;
        }
        let window: Option<Window> = self.window.take();
        match window {
            Some(window) => {
                let mut window = window;
                window.word(position);
                self.window = Some(window);
            },
            None => {
                if self.current_filename.is_some() {
                    let mut window = Window::new();
                    window.word(position);
                    self.window = Some(window);
                }
            },
        }
        TgckStep::Done { rows, filenames, consumed: count }
    }

    /// Closes the window at the end of the words and gives its lines.
    pub fn finish(&mut self) -> (rows: Vec<TextSample>)
        ensures
            final(self).name == old(self).name,
            final(self)@ == (RecorderView { window: None, ..old(self)@ }),
            line_views(rows@) == closing_lines(old(self)@.window, old(self)@.last_position),
    {
        let mut rows: Vec<TextSample> = Vec::new();
        let at: u64 = self.last_position;
        let ghost window = self@.window;
        self.close_window(&mut rows, at);
        assert(line_views(Seq::empty()) + closing_lines(window, at) =~= closing_lines(window, at));
        rows
    }
}

proof fn lemma_window_words(recorder: RecorderView, position: u64)
    ensures
        recorder.named(position).recorder.window is None || recorder.named(position).recorder.window
            == recorder.window,
    decreases recorder.pending_names.len(),
{
    if !(recorder.pending_names.len() == 0 || recorder.pending_names[0].start_time_ns > position) {
        let next = RecorderView {
            window: None,
            current_filename: Some(recorder.pending_names[0].name),
            pending_names: recorder.pending_names.skip(1),
            ..recorder
        };
        lemma_window_words(next, position);
    }
}

/// What happens to a window.
pub enum WindowEvent {
    Clock(Sample),
    Word(u64),
}

/// The level of the clock behind the first events; `last` before them.
pub open spec fn clock_level(events: Seq<WindowEvent>, last: bool, count: nat) -> bool
    decreases count,
{
    if count == 0 {
        last
    } else {
        match events[count - 1] {
            WindowEvent::Clock(edge) => edge.value,
            WindowEvent::Word(_) => clock_level(events, last, (count - 1) as nat),
        }
    }
}

/// Whether event `i` is an edge of the clock to `value`.
pub open spec fn edge_at(events: Seq<WindowEvent>, last: bool, i: int, value: bool) -> bool {
    events[i] matches WindowEvent::Clock(edge) && edge.value == value && clock_level(
        events,
        last,
        i as nat,
    ) != value
}

/// Whether the clock rises and falls again among the first events.
pub open spec fn complete_cycle(events: Seq<WindowEvent>, last: bool, count: int) -> bool {
    exists|i: int, j: int|
        0 <= i < j < count && #[trigger] edge_at(events, last, i, true) && #[trigger] edge_at(
            events,
            last,
            j,
            false,
        )
}

/// A window that has seen the first events.
pub open spec fn window_after(events: Seq<WindowEvent>, last: bool, count: nat) -> WindowView
    decreases count,
{
    if count == 0 {
        empty_window()
    } else {
        let before = window_after(events, last, (count - 1) as nat);
        match events[count - 1] {
            WindowEvent::Clock(edge) => before.clocked(
                clock_level(events, last, (count - 1) as nat),
                edge,
            ),
            WindowEvent::Word(position) => before.worded(position),
        }
    }
}

proof fn lemma_window_cycles(events: Seq<WindowEvent>, last: bool, count: nat)
    requires
        count <= events.len(),
    ensures
        ({
            let window = window_after(events, last, count);
            &&& (window.current_rising is Some) == exists|i: int|
                0 <= i < count && #[trigger] edge_at(events, last, i, true)
            &&& (window.finalized().records.len() > 0) == complete_cycle(
                events,
                last,
                count as int,
            )
        }),
    decreases count,
{
    if count > 0 {
        let k = count - 1;
        lemma_window_cycles(events, last, k as nat);
        let before = window_after(events, last, k as nat);
        let window = window_after(events, last, count);
        if edge_at(events, last, k, true) {
            assert(window.current_rising is Some);
        } else if before.current_rising is Some {
            let i = choose|i: int| 0 <= i < k && #[trigger] edge_at(events, last, i, true);
            assert(edge_at(events, last, i, true));
            assert(window.current_rising is Some);
        }
        if complete_cycle(events, last, k) {
            let (i, j) = choose|i: int, j: int|
                0 <= i < j < k && #[trigger] edge_at(events, last, i, true) && #[trigger] edge_at(
                    events,
                    last,
                    j,
                    false,
                );
            assert(edge_at(events, last, i, true) && edge_at(events, last, j, false));
        }
        if edge_at(events, last, k, false) && before.current_rising is Some {
            let i = choose|i: int| 0 <= i < k && #[trigger] edge_at(events, last, i, true);
            assert(edge_at(events, last, i, true) && edge_at(events, last, k, false));
        }
        if complete_cycle(events, last, count as int) && !complete_cycle(events, last, k) {
            let (i, j) = choose|i: int, j: int|
                0 <= i < j < count && #[trigger] edge_at(events, last, i, true)
                    && #[trigger] edge_at(events, last, j, false);
            assert(j == k) by {
                if j < k {
                    assert(edge_at(events, last, i, true) && edge_at(events, last, j, false));
                }
            }
        }
    }
}

/// A window gives lines exactly where it saw the clock rise and fall again; without a complete
/// cycle there is not even a header.
pub proof fn law_lines_need_a_complete_cycle(events: Seq<WindowEvent>, last: bool, at: u64)
    ensures
        (closing_lines(Some(window_after(events, last, events.len())), at).len() > 0)
            == complete_cycle(events, last, events.len() as int),
{
    lemma_window_cycles(events, last, events.len());
}

/// Every file name that takes over passes its CSV name on, whether or not the window it closes
/// had lines: the names up to the time of the word come out in order, one for one.
pub proof fn law_every_name_is_passed_on(recorder: RecorderView, position: u64)
    ensures
        ({
            let taken = recorder.named(position);
            let passed = recorder.pending_names.len() - taken.recorder.pending_names.len();
            &&& taken.filenames.len() == passed
            &&& taken.recorder.pending_names == recorder.pending_names.skip(passed)
            &&& forall|i: int|
                0 <= i < passed ==> (#[trigger] taken.filenames[i]).text
                    == recorder.pending_names[i].csv_name && taken.filenames[i].time
                    == recorder.pending_names[i].start_time_ns
        }),
    decreases recorder.pending_names.len(),
{
    let names = recorder.pending_names;
    if names.len() == 0 || names[0].start_time_ns > position {
        assert(names.skip(0) =~= names);
    } else {
        let next = RecorderView {
            window: None,
            current_filename: Some(names[0].name),
            pending_names: names.skip(1),
            ..recorder
        };
        law_every_name_is_passed_on(next, position);
        let taken = recorder.named(position);
        let rest = next.named(position);
        let passed = names.len() - taken.recorder.pending_names.len();
        assert(names.skip(1).skip(passed - 1) =~= names.skip(passed));
        assert forall|i: int| 0 <= i < passed implies (#[trigger] taken.filenames[i]).text
            == names[i].csv_name && taken.filenames[i].time == names[i].start_time_ns by {
            if i > 0 {
                assert(taken.filenames[i] == rest.filenames[i - 1]);
            }
        }
    }
}

} // verus!
