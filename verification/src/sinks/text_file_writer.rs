//! Text-line writer rolled over by a file-name level.
//!
//! The writer waits for lines only. It keeps the current file name and lets a new one take over
//! once the lines have passed its time. A file opens with the first line written to it, so names
//! without lines leave no file behind. What happens to files is told in actions.

use vstd::prelude::*;

use crate::ports::{list_ports, listed, port_views, PortKind, PortSchema};
use crate::streams::TextSample;
use crate::text::owned;

verus! {

/// Something to be done to files.
#[derive(Debug, PartialEq, Eq)]
pub enum WriterAction {
    /// Flush and close the open file.
    Close,
    /// Create a file, and the directories it lies in.
    Create(String),
    /// Append a line to the open file.
    Write(String),
}

/// An action seen through its text.
pub enum ActionView {
    Close,
    Create(Seq<char>),
    Write(Seq<char>),
}

impl View for WriterAction {
    type V = ActionView;

    open spec fn view(&self) -> ActionView {
        match *self {
            WriterAction::Close => ActionView::Close,
            WriterAction::Create(name) => ActionView::Create(name@),
            WriterAction::Write(line) => ActionView::Write(line@),
        }
    }
}

/// Actions seen through their texts.
pub open spec fn action_views(actions: Seq<WriterAction>) -> Seq<ActionView> {
    actions.map_values(|action: WriterAction| action@)
}

/// Writes lines to files named by a level.
#[derive(Debug)]
pub struct TextFileWriter {
    pub name: String,
    /// Names whose time the lines have not passed yet.
    pub pending_names: Vec<TextSample>,
    pub current_name: Option<String>,
    pub file_open: bool,
    pub lines_in_file: u64,
    pub last_line_ts: u64,
}

/// A name at a time.
pub struct NameView {
    pub name: Seq<char>,
    pub time: u64,
}

/// A writer seen through its names.
pub struct WriterView {
    pub pending_names: Seq<NameView>,
    pub current_name: Option<Seq<char>>,
    pub file_open: bool,
    pub lines_in_file: u64,
    pub last_line_ts: u64,
}

/// Names seen through their texts.
pub open spec fn name_views(names: Seq<TextSample>) -> Seq<NameView> {
    names.map_values(
        |sample: TextSample| NameView { name: sample.value@, time: sample.start_time_ns },
    )
}

impl View for TextFileWriter {
    type V = WriterView;

    open spec fn view(&self) -> WriterView {
        WriterView {
            pending_names: name_views(self.pending_names@),
            current_name: match self.current_name {
                Some(name) => Some(name@),
                None => None,
            },
            file_open: self.file_open,
            lines_in_file: self.lines_in_file,
            last_line_ts: self.last_line_ts,
        }
    }
}

impl WriterView {
    /// The writer without an open file.
    pub open spec fn closed(self) -> WriterView {
        WriterView { file_open: false, lines_in_file: 0, ..self }
    }

    /// What closing takes: an action where a file is open.
    pub open spec fn closing(self) -> Seq<ActionView> {
        if self.file_open {
            seq![ActionView::Close]
        } else {
            Seq::empty()
        }
    }

    /// The writer once the names up to a time have taken over.
    pub open spec fn named(self, time: u64) -> WriterView
        decreases self.pending_names.len(),
    {
        if self.pending_names.len() == 0 || self.pending_names[0].time > time {
            self
        } else {
            WriterView {
                current_name: Some(self.pending_names[0].name),
                pending_names: self.pending_names.skip(1),
                ..self.closed()
            }.named(time)
        }
    }

    /// What letting the names up to a time take over takes.
    pub open spec fn naming(self, time: u64) -> Seq<ActionView> {
        if self.pending_names.len() == 0 || self.pending_names[0].time > time {
            Seq::empty()
        } else {
            self.closing()
        }
    }
}

impl TextFileWriter {
    pub fn new() -> (result: Self)
        ensures
            result.name@ == "text_file_writer"@,
            result@ == (WriterView {
                pending_names: Seq::empty(),
                current_name: None,
                file_open: false,
                lines_in_file: 0,
                last_line_ts: 0,
            }),
    {
        let pending_names: Vec<TextSample> = Vec::new();
        assert(name_views(pending_names@) =~= Seq::<NameView>::empty());
        TextFileWriter {
            name: owned("text_file_writer"),
            pending_names,
            current_name: None,
            file_open: false,
            lines_in_file: 0,
            last_line_ts: 0,
        }
    }

    pub fn with_name(self, name: String) -> (result: Self)
        ensures
            result == (TextFileWriter { name, ..self }),
    {
        TextFileWriter { name, ..self }
    }

    pub fn num_inputs(&self) -> (result: usize)
        ensures
            result == 2,
    {
        2
    }

    pub fn num_outputs(&self) -> (result: usize)
        ensures
            result == 0,
    {
        0
    }

    /// The inputs in order.
    pub fn input_schema(&self) -> (result: Vec<PortSchema>)
        ensures
            port_views(result@) == listed(seq![("lines"@, PortKind::Text), ("filename"@, PortKind::Text)]),
    {
        let ports: [(&str, PortKind); 2] = [("lines", PortKind::Text), ("filename", PortKind::Text)];
        let result: Vec<PortSchema> = list_ports(&ports);
        assert(port_views(result@) =~= listed(seq![("lines"@, PortKind::Text), ("filename"@, PortKind::Text)]));
        result
    }

    /// Whether the first name has to be waited for before a line is taken.
    pub fn awaits_name(&self) -> (result: bool)
        ensures
            result == (self@.current_name is None && self@.pending_names.len() == 0),
    {
        self.current_name.is_none() && self.pending_names.len() == 0
    }

    /// Queues a name that has arrived.
    pub fn offer_name(&mut self, change: TextSample)
        ensures
            final(self).name == old(self).name,
            final(self)@ == (WriterView {
                pending_names: old(self)@.pending_names.push(
                    NameView { name: change.value@, time: change.start_time_ns },
                ),
                ..old(self)@
            }),
    {
        let ghost before = self.pending_names@;
        let ghost added = NameView { name: change.value@, time: change.start_time_ns };
        self.pending_names.push(change);
        assert(name_views(self.pending_names@) =~= name_views(before).push(added));
    }

    /// Closes the open file, if any.
    pub fn close_current(&mut self) -> (result: Option<WriterAction>)
        ensures
            final(self).name == old(self).name,
            final(self)@ == old(self)@.closed(),
            final(self).pending_names == old(self).pending_names,
            final(self).current_name == old(self).current_name,
            match result {
                Some(action) => old(self)@.file_open && action@ == ActionView::Close,
                None => !old(self)@.file_open,
            },
    {
        let open: bool = self.file_open;
        self.file_open = false;
        self.lines_in_file = 0;
        if open {
            Some(WriterAction::Close)
        } else {
            None
        }
    }

    /// Takes one line: the names up to its time take over, the file opens where none is open, and
    /// the line is written. Without a name nothing can be written.
    pub fn work(&mut self, line: TextSample) -> (result: (Vec<WriterAction>, bool))
        requires
            old(self).lines_in_file < u64::MAX,
        ensures
            final(self).name == old(self).name,
            ({
                let time = line.start_time_ns;
                let named = WriterView { last_line_ts: time, ..old(self)@.named(time) };
                let closing = old(self)@.naming(time);
                let actions = action_views(result.0@);
                if named.current_name is None && !named.file_open {
                    !result.1 && actions == closing && final(self)@ == named
                } else {
                    &&& result.1
                    &&& actions == closing + (if named.file_open {
                        Seq::empty()
                    } else {
                        seq![ActionView::Create(named.current_name->0)]
                    }) + seq![ActionView::Write(line.value@)]
                    &&& final(self)@ == (WriterView {
                        file_open: true,
                        lines_in_file: (named.lines_in_file + 1) as u64,
                        ..named
                    })
                }
            }),
    {
        let time: u64 = line.start_time_ns;
        let mut actions: Vec<WriterAction> = Vec::new();
        let ghost start = self@;
        assert(action_views(actions@) =~= Seq::<ActionView>::empty());
        let ghost mut first = true;
        while self.pending_names.len() > 0 && self.pending_names[0].start_time_ns <= time
            invariant
                self.name == old(self).name,
                start == old(self)@,
                self@.named(time) == start.named(time),
                first ==> self@ == start && action_views(actions@) == Seq::<ActionView>::empty(),
                !first ==> start.naming(time) == action_views(actions@) && !self.file_open
                    && start.pending_names.len() > 0 && start.pending_names[0].time <= time,
                self.lines_in_file < u64::MAX,
            decreases self.pending_names@.len(),
        {
            let ghost before = self@;
            let ghost done = actions@;
            let change: TextSample = self.pending_names.remove(0);
            proof {
                assert(before.pending_names[0] == (NameView {
                    name: change.value@,
                    time: change.start_time_ns,
                }));
                assert(name_views(self.pending_names@) =~= before.pending_names.skip(1));
            }
            match self.close_current() {
                Some(action) => {
                    actions.push(action);
                    proof {
                        assert(action_views(actions@) =~= action_views(done).push(
                            ActionView::Close,
                        ));
                        assert(first);
                        assert(action_views(actions@) =~= start.naming(time));
                    }
                },
                None => {
                    assert(first ==> start.naming(time) =~= Seq::<ActionView>::empty());
                },
            }
            self.current_name = Some(change.value);
            proof {
                first = false;
            }
        }
        proof {
            assert(self.pending_names@.len() > 0 ==> self@.pending_names[0].time
                == self.pending_names@[0].start_time_ns);
            assert(self@.named(time) == self@);
            if first {
                assert(start.naming(time) =~= Seq::<ActionView>::empty());
            }
        }
        self.last_line_ts = time;
        if !self.file_open {
            match &self.current_name {
                Some(name) => {
                    let ghost done = actions@;
                    let created: WriterAction = WriterAction::Create(owned(name.as_str()));
                    let ghost view = created@;
                    actions.push(created);
                    assert(action_views(actions@) =~= action_views(done).push(view));
                },
                None => {
                    return (actions, false);
                },
            }
            self.file_open = true;
        }
        let ghost done = actions@;
        let ghost text = line.value@;
        actions.push(WriterAction::Write(line.value));
        self.lines_in_file = self.lines_in_file + 1;
        proof {
            assert(action_views(actions@) =~= action_views(done).push(ActionView::Write(text)));
            let named = start.named(time);
            let opened = if named.file_open {
                Seq::empty()
            } else {
                seq![ActionView::Create(named.current_name->0)]
            };
            assert(action_views(actions@) =~= start.naming(time) + opened + seq![
                ActionView::Write(text),
            ]);
        }
        (actions, true)
    }
}

/// Names without lines leave no file behind: however many names take over before a line, only the
/// last of them becomes a file, with that line in it.
pub proof fn law_empty_names_create_no_file(writer: WriterView, time: u64)
    requires
        writer.pending_names.len() > 0,
        forall|i: int| 0 <= i < writer.pending_names.len() ==> (#[trigger] writer.pending_names[i]).time
            <= time,
    ensures
        writer.named(time).current_name == Some(writer.pending_names.last().name),
        writer.named(time).pending_names.len() == 0,
        !writer.named(time).file_open,
    decreases writer.pending_names.len(),
{
    let next = WriterView {
        current_name: Some(writer.pending_names[0].name),
        pending_names: writer.pending_names.skip(1),
        ..writer.closed()
    };
    assert(writer.named(time) == next.named(time));
    if writer.pending_names.len() > 1 {
        law_empty_names_create_no_file(next, time);
    } else {
        assert(next.pending_names.len() == 0);
    }
}

/// A line at the very time of a name goes to the file of that name.
pub proof fn law_boundary_line_goes_to_the_new_file(writer: WriterView, name: Seq<char>, time: u64)
    requires
        writer.pending_names == seq![NameView { name, time }],
    ensures
        writer.named(time).current_name == Some(name),
        !writer.named(time).file_open,
{
    law_empty_names_create_no_file(writer, time);
}

} // verus!
