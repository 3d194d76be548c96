//! Sections of keys and values.

use vstd::prelude::*;

use crate::text::{
    char_views, find_char, first_at, lines_of, same_chars, slice_chars, starts_with, to_chars,
    trim, trimmed, trimmed_lines,
};

verus! {

/// One assignment of a file.
#[derive(Debug)]
pub struct IniEntry {
    pub section: Vec<char>,
    pub key: Vec<char>,
    pub value: Vec<char>,
}

/// An assignment seen through its texts.
pub struct EntryView {
    pub section: Seq<char>,
    pub key: Seq<char>,
    pub value: Seq<char>,
}

impl View for IniEntry {
    type V = EntryView;

    open spec fn view(&self) -> EntryView {
        EntryView { section: self.section@, key: self.key@, value: self.value@ }
    }
}

/// Assignments seen through their texts.
pub open spec fn entry_views(entries: Seq<IniEntry>) -> Seq<EntryView> {
    entries.map_values(|entry: IniEntry| entry@)
}

/// The section that a line opens, if it does.
pub open spec fn opened_section(line: Seq<char>) -> Option<Seq<char>> {
    if line.len() >= 2 && line[0] == '[' && line.last() == ']' {
        Some(line.subrange(1, line.len() - 1))
    } else {
        None
    }
}

/// The assignment that a line of a section makes, if it does. Empty lines and comments make none.
pub open spec fn assignment(section: Seq<char>, line: Seq<char>) -> Option<EntryView> {
    if line.len() == 0 || line[0] == '#' || opened_section(line) is Some {
        None
    } else {
        match first_at(line, '=', 0) {
            Some(at) => Some(
                EntryView {
                    section,
                    key: trimmed(line.subrange(0, at)),
                    value: trimmed(line.subrange(at + 1, line.len() as int)),
                },
            ),
            None => None,
        }
    }
}

/// The section that holds behind the first `count` lines.
pub open spec fn section_after(lines: Seq<Seq<char>>, count: nat) -> Seq<char>
    decreases count,
{
    if count == 0 {
        Seq::empty()
    } else {
        let line = lines[count - 1];
        match opened_section(line) {
            Some(name) => name,
            None => section_after(lines, (count - 1) as nat),
        }
    }
}

/// The assignments of the first `count` lines, in order.
pub open spec fn assignments(lines: Seq<Seq<char>>, count: nat) -> Seq<EntryView>
    decreases count,
{
    if count == 0 {
        Seq::empty()
    } else {
        let before = assignments(lines, (count - 1) as nat);
        match assignment(section_after(lines, (count - 1) as nat), lines[count - 1]) {
            Some(entry) => before.push(entry),
            None => before,
        }
    }
}

/// The assignments of a text, in order.
pub open spec fn ini_entries(text: Seq<char>) -> Seq<EntryView> {
    assignments(trimmed_lines(text), trimmed_lines(text).len())
}

/// The value of a key in a section: the last one assigned.
pub open spec fn value_of(entries: Seq<EntryView>, section: Seq<char>, key: Seq<char>) -> Option<
    Seq<char>,
>
    decreases entries.len(),
{
    if entries.len() == 0 {
        None
    } else if entries.last().section == section && entries.last().key == key {
        Some(entries.last().value)
    } else {
        value_of(entries.drop_last(), section, key)
    }
}

/// Reads the assignments of a text.
pub fn parse_ini(text: &str) -> (result: Vec<IniEntry>)
    ensures
        entry_views(result@) == ini_entries(text@),
{
    let characters: Vec<char> = to_chars(text);
    let lines: Vec<Vec<char>> = lines_of(characters.as_slice());
    let ghost all = trimmed_lines(text@);
    let mut entries: Vec<IniEntry> = Vec::new();
    let mut section: Vec<char> = Vec::new();
    let mut index: usize = 0;
    assert(entry_views(entries@) =~= Seq::<EntryView>::empty());
    assert(section@ =~= Seq::<char>::empty());
    while index < lines.len()
        invariant
            index <= lines@.len(),
            char_views(lines@) == all,
            section@ == section_after(all, index as nat),
            entry_views(entries@) == assignments(all, index as nat),
        decreases lines@.len() - index,
    {
        let line: &Vec<char> = &lines[index];
        let len: usize = line.len();
        assert(all[index as int] == line@);
        if len >= 2 && line[0] == '[' && line[len - 1] == ']' {
            section = slice_chars(line.as_slice(), 1, len - 1);
        } else if len > 0 && line[0] != '#' {
            match find_char(line.as_slice(), '=', 0) {
                Some(at) => {
                    let key: Vec<char> = trim(slice_chars(line.as_slice(), 0, at).as_slice());
                    let value: Vec<char> = trim(
                        slice_chars(line.as_slice(), at + 1, len).as_slice(),
                    );
                    let held: Vec<char> = slice_chars(section.as_slice(), 0, section.len());
                    assert(held@ =~= section@);
                    let ghost before = entries@;
                    let entry = IniEntry { section: held, key, value };
                    let ghost view = entry@;
                    entries.push(entry);
                    assert(entry_views(entries@) =~= entry_views(before).push(view));
                },
                None => {},
            }
        }
        index += 1;
    }
    assert(all.len() == lines@.len());
    entries
}

/// Looks a key of a section up.
pub fn lookup(entries: &Vec<IniEntry>, section: &[char], key: &[char]) -> (result: Option<Vec<char>>)
    ensures
        text_view(result) == value_of(entry_views(entries@), section@, key@),
{
    let ghost views = entry_views(entries@);
    let mut left: usize = entries.len();
    assert(views.take(left as int) =~= views);
    while left > 0
        invariant
            left <= entries@.len(),
            views == entry_views(entries@),
            value_of(views, section@, key@) == value_of(views.take(left as int), section@, key@),
        decreases left,
    {
        let entry: &IniEntry = &entries[left - 1];
        proof {
            assert(views.take(left as int).last() == entry@);
            assert(views.take(left as int).drop_last() =~= views.take(left - 1));
        }
        if same_chars(entry.section.as_slice(), section) && same_chars(entry.key.as_slice(), key) {
            let value: Vec<char> = slice_chars(entry.value.as_slice(), 0, entry.value.len());
            assert(value@ =~= entry.value@);
            return Some(value);
        }
        left -= 1;
    }
    None
}

/// Whether one text comes before another in the order of their characters.
pub open spec fn precedes(left: Seq<char>, right: Seq<char>) -> bool
    decreases left.len(),
{
    if left.len() == 0 {
        right.len() > 0
    } else if right.len() == 0 {
        false
    } else if left[0] != right[0] {
        left[0] < right[0]
    } else {
        precedes(left.skip(1), right.skip(1))
    }
}

/// Tells whether one text comes before another in the order of their characters.
pub fn comes_before(left: &[char], right: &[char]) -> (result: bool)
    ensures
        result == precedes(left@, right@),
{
    let mut index: usize = 0;
    assert(left@.skip(0) =~= left@);
    assert(right@.skip(0) =~= right@);
    while index < left.len() && index < right.len()
        invariant
            index <= left@.len(),
            index <= right@.len(),
            precedes(left@, right@) == precedes(left@.skip(index as int), right@.skip(index as int)),
        decreases left@.len() - index,
    {
        let one: char = left[index];
        let other: char = right[index];
        if one != other {
            return one < other;
        }
        assert(left@.skip(index as int).skip(1) =~= left@.skip(index + 1));
        assert(right@.skip(index as int).skip(1) =~= right@.skip(index + 1));
        index += 1;
    }
    index < right.len()
}

/// Exactly one of two different texts comes before the other.
pub proof fn lemma_precedes_total(left: Seq<char>, right: Seq<char>)
    ensures
        left == right <==> !precedes(left, right) && !precedes(right, left),
        !(precedes(left, right) && precedes(right, left)),
    decreases left.len(),
{
    if left.len() == 0 {
        if right.len() == 0 {
            assert(left =~= right);
        }
    } else if right.len() > 0 && left[0] == right[0] {
        lemma_precedes_total(left.skip(1), right.skip(1));
        if left.skip(1) == right.skip(1) {
            assert(left =~= seq![left[0]] + left.skip(1));
            assert(right =~= seq![right[0]] + right.skip(1));
        }
    }
}

/// The order of texts is transitive.
pub proof fn lemma_precedes_transitive(first: Seq<char>, second: Seq<char>, third: Seq<char>)
    requires
        precedes(first, second),
        precedes(second, third),
    ensures
        precedes(first, third),
    decreases first.len(),
{
    if first.len() > 0 && second.len() > 0 && third.len() > 0 && first[0] == second[0] && second[0]
        == third[0] {
        lemma_precedes_transitive(first.skip(1), second.skip(1), third.skip(1));
    }
}

/// A text that may be missing, seen as a character sequence.
pub open spec fn text_view(text: Option<Vec<char>>) -> Option<Seq<char>> {
    match text {
        Some(text) => Some(text@),
        None => None,
    }
}

/// Whether a section is one of the assignments' and both starts with a prefix and has a key.
pub open spec fn qualifies(
    entries: Seq<EntryView>,
    section: Seq<char>,
    prefix: Seq<char>,
    key: Seq<char>,
) -> bool {
    prefix.is_prefix_of(section) && value_of(entries, section, key) is Some
}

/// The first section, in the order of their names, that starts with a prefix and has a key.
pub open spec fn is_first_section(
    entries: Seq<EntryView>,
    prefix: Seq<char>,
    key: Seq<char>,
    section: Option<Seq<char>>,
) -> bool {
    match section {
        Some(name) => qualifies(entries, name, prefix, key) && forall|other: Seq<char>| #[trigger]
            qualifies(entries, other, prefix, key) ==> !precedes(other, name),
        None => forall|other: Seq<char>| !#[trigger] qualifies(entries, other, prefix, key),
    }
}

proof fn lemma_value_has_entry(entries: Seq<EntryView>, section: Seq<char>, key: Seq<char>)
    requires
        value_of(entries, section, key) is Some,
    ensures
        exists|i: int|
            0 <= i < entries.len() && (#[trigger] entries[i]).section == section && entries[i].key
                == key,
    decreases entries.len(),
{
    if entries.last().section == section && entries.last().key == key {
        assert(entries[entries.len() - 1].section == section);
    } else {
        lemma_value_has_entry(entries.drop_last(), section, key);
        let i = choose|i: int|
            0 <= i < entries.drop_last().len() && (#[trigger] entries.drop_last()[i]).section
                == section && entries.drop_last()[i].key == key;
        assert(entries[i].section == section);
    }
}

proof fn lemma_entry_has_value(entries: Seq<EntryView>, i: int)
    requires
        0 <= i < entries.len(),
    ensures
        value_of(entries, entries[i].section, entries[i].key) is Some,
    decreases entries.len(),
{
    if i < entries.len() - 1 {
        lemma_entry_has_value(entries.drop_last(), i);
    }
}

/// Finds the first section, in the order of their names, that starts with a prefix and has a key.
pub fn first_section(entries: &Vec<IniEntry>, prefix: &[char], key: &[char]) -> (result: Option<
    Vec<char>,
>)
    ensures
        is_first_section(entry_views(entries@), prefix@, key@, text_view(result)),
{
    let ghost views = entry_views(entries@);
    let mut best: Option<usize> = None;
    let mut index: usize = 0;
    while index < entries.len()
        invariant
            index <= entries@.len(),
            views == entry_views(entries@),
            match best {
                Some(at) => {
                    &&& at < index
                    &&& prefix@.is_prefix_of(views[at as int].section)
                    &&& views[at as int].key == key@
                    &&& forall|i: int|
                        0 <= i < index && prefix@.is_prefix_of((#[trigger] views[i]).section)
                            && views[i].key == key@ ==> !precedes(
                            views[i].section,
                            views[at as int].section,
                        )
                },
                None => forall|i: int|
                    0 <= i < index ==> !(prefix@.is_prefix_of((#[trigger] views[i]).section)
                        && views[i].key == key@),
            },
        decreases entries@.len() - index,
    {
        let entry: &IniEntry = &entries[index];
        assert(views[index as int] == entry@);
        if starts_with(entry.section.as_slice(), prefix) && same_chars(entry.key.as_slice(), key) {
            match best {
                Some(at) => {
                    assert(views[at as int] == entries@[at as int]@);
                    if comes_before(entry.section.as_slice(), entries[at].section.as_slice()) {
                        best = Some(index);
                        proof {
                            assert forall|i: int|
                                0 <= i < index + 1 && prefix@.is_prefix_of(
                                    (#[trigger] views[i]).section,
                                ) && views[i].key == key@ implies !precedes(
                                views[i].section,
                                views[index as int].section,
                            ) by {
                                lemma_precedes_total(
                                    views[i].section,
                                    views[index as int].section,
                                );
                                if precedes(views[i].section, views[index as int].section) {
                                    lemma_precedes_transitive(
                                        views[i].section,
                                        views[index as int].section,
                                        views[at as int].section,
                                    );
                                }
                            }
                        }
                    }
                },
                None => {
                    best = Some(index);
                    proof {
                        lemma_precedes_total(
                            views[index as int].section,
                            views[index as int].section,
                        );
                    }
                },
            }
        }
        index += 1;
    }
    match best {
        Some(at) => {
            let entry: &IniEntry = &entries[at];
            let name: Vec<char> = slice_chars(entry.section.as_slice(), 0, entry.section.len());
            proof {
                assert(name@ =~= views[at as int].section);
                lemma_entry_has_value(views, at as int);
                assert forall|other: Seq<char>| #[trigger]
                    qualifies(views, other, prefix@, key@) implies !precedes(other, name@) by {
                    lemma_value_has_entry(views, other, key@);
                }
            }
            Some(name)
        },
        None => {
            proof {
                assert forall|other: Seq<char>| !#[trigger] qualifies(
                    views,
                    other,
                    prefix@,
                    key@,
                ) by {
                    if qualifies(views, other, prefix@, key@) {
                        lemma_value_has_entry(views, other, key@);
                    }
                }
            }
            None
        },
    }
}

/// There is at most one first section.
pub proof fn law_first_section_is_unique(
    entries: Seq<EntryView>,
    prefix: Seq<char>,
    key: Seq<char>,
    left: Option<Seq<char>>,
    right: Option<Seq<char>>,
)
    requires
        is_first_section(entries, prefix, key, left),
        is_first_section(entries, prefix, key, right),
    ensures
        left == right,
{
    match (left, right) {
        (Some(left), Some(right)) => {
            lemma_precedes_total(left, right);
        },
        (Some(left), None) => {
            assert(qualifies(entries, left, prefix, key));
        },
        (None, Some(right)) => {
            assert(qualifies(entries, right, prefix, key));
        },
        (None, None) => {},
    }
}

} // verus!
