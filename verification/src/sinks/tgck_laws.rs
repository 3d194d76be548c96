//! What the rows of a recorded window say of the clock and the words.

use vstd::prelude::*;

use super::tgck_recorder::{
    clock_level, closing_lines, csv_header, csv_line, csv_path, due_edges, edge_at, window_after,
    RecorderView, TgckRecord, WindowEvent, WindowView,
};
use crate::paths::{law_renamed_file_stays_in_its_directory, law_stem_ends_at_the_last_dot};
use crate::streams::Sample;
use crate::text::{decimal, digit_char};

verus! {

/// Number of words among the first events.
pub open spec fn words_before(events: Seq<WindowEvent>, count: int) -> nat {
    events.take(count).filter(|event: WindowEvent| event is Word).len()
}

/// The time of an event.
pub open spec fn time_of(event: WindowEvent) -> u64 {
    match event {
        WindowEvent::Clock(edge) => edge.start_time_ns,
        WindowEvent::Word(position) => position,
    }
}

/// The latest edge to a level among the first events.
pub open spec fn latest_edge(events: Seq<WindowEvent>, last: bool, count: int, value: bool) -> Option<
    int,
>
    decreases count,
{
    if count <= 0 {
        None
    } else if edge_at(events, last, count - 1, value) {
        Some(count - 1)
    } else {
        latest_edge(events, last, count - 1, value)
    }
}

/// The first word from an event on, before the clock rises again.
pub open spec fn first_word(events: Seq<WindowEvent>, last: bool, from: int, end: int) -> Option<int>
    decreases end - from,
{
    if from >= end || edge_at(events, last, from, true) {
        None
    } else if events[from] is Word {
        Some(from)
    } else {
        first_word(events, last, from + 1, end)
    }
}

/// How many words came before an event and when it came; zero without one.
pub open spec fn place_of(events: Seq<WindowEvent>, event: Option<int>) -> (usize, u64) {
    match event {
        Some(i) => (words_before(events, i) as usize, time_of(events[i])),
        None => (0, 0),
    }
}

/// The falls of the clock, among the first events, that come behind a rise: each completes a cycle.
pub open spec fn completing_falls(events: Seq<WindowEvent>, last: bool, count: int) -> Seq<int>
    decreases count,
{
    if count <= 0 {
        Seq::empty()
    } else {
        let before = completing_falls(events, last, count - 1);
        if edge_at(events, last, count - 1, false) && latest_edge(events, last, count - 1, true) is Some {
            before.push(count - 1)
        } else {
            before
        }
    }
}

/// The row of the cycle that a fall completes.
pub open spec fn row_of(events: Seq<WindowEvent>, last: bool, fall: int, end: int) -> TgckRecord {
    let rise = latest_edge(events, last, fall, true);
    let behind_rise = place_of(events, first_word(events, last, rise->0 + 1, end));
    let behind_fall = place_of(events, first_word(events, last, fall + 1, end));
    TgckRecord {
        rising_byte_index: place_of(events, rise).0,
        rising_timestamp: place_of(events, rise).1,
        falling_byte_index: place_of(events, Some(fall)).0,
        falling_timestamp: place_of(events, Some(fall)).1,
        first_word_after_rising_byte_index: behind_rise.0,
        first_word_after_rising_timestamp: behind_rise.1,
        first_word_after_falling_byte_index: behind_fall.0,
        first_word_after_falling_timestamp: behind_fall.1,
    }
}

proof fn lemma_latest_edge(events: Seq<WindowEvent>, last: bool, count: int, value: bool)
    ensures
        match latest_edge(events, last, count, value) {
            Some(i) => 0 <= i < count && edge_at(events, last, i, value) && forall|k: int|
                i < k < count ==> !#[trigger] edge_at(events, last, k, value),
            None => forall|k: int| 0 <= k < count ==> !#[trigger] edge_at(events, last, k, value),
        },
    decreases count,
{
    if count > 0 && !edge_at(events, last, count - 1, value) {
        lemma_latest_edge(events, last, count - 1, value);
    }
}

proof fn lemma_latest_edge_kept(events: Seq<WindowEvent>, last: bool, fall: int, count: int)
    requires
        0 <= fall <= count,
        forall|k: int| fall <= k < count ==> !#[trigger] edge_at(events, last, k, true),
    ensures
        latest_edge(events, last, count, true) == latest_edge(events, last, fall, true),
    decreases count - fall,
{
    if fall < count {
        assert(!edge_at(events, last, count - 1, true));
        lemma_latest_edge_kept(events, last, fall, count - 1);
    }
}

proof fn lemma_first_word_grows(events: Seq<WindowEvent>, last: bool, from: int, end: int)
    requires
        from <= end,
    ensures
        first_word(events, last, from, end) is Some ==> first_word(events, last, from, end + 1)
            == first_word(events, last, from, end),
        !(events[end] is Word) ==> first_word(events, last, from, end + 1) == first_word(
            events,
            last,
            from,
            end,
        ),
        (exists|k: int| from <= k < end && #[trigger] edge_at(events, last, k, true)) ==> first_word(
            events,
            last,
            from,
            end + 1,
        ) == first_word(events, last, from, end),
        (forall|k: int| from <= k < end ==> !#[trigger] edge_at(events, last, k, true))
            && first_word(events, last, from, end) is None && events[end] is Word ==> first_word(
            events,
            last,
            from,
            end + 1,
        ) == Some(end),
    decreases end - from,
{
    if from < end {
        lemma_first_word_grows(events, last, from + 1, end);
        if exists|k: int| from <= k < end && #[trigger] edge_at(events, last, k, true) {
            let k = choose|k: int| from <= k < end && #[trigger] edge_at(events, last, k, true);
            if k > from {
                assert(from + 1 <= k < end && edge_at(events, last, k, true));
            }
        } else {
            assert(!edge_at(events, last, from, true));
        }
    } else {
        reveal_with_fuel(first_word, 2);
        if edge_at(events, last, from, true) {
            assert(!(events[end] is Word));
        }
    }
}

proof fn lemma_words_grow(events: Seq<WindowEvent>, count: int)
    requires
        0 <= count < events.len(),
    ensures
        words_before(events, count + 1) == words_before(events, count) + (if events[count] is Word {
            1nat
        } else {
            0nat
        }),
        words_before(events, count) <= count,
        words_before(events, 0) == 0,
{
    reveal(Seq::filter);
    assert(events.take(count + 1).drop_last() =~= events.take(count));
    assert(events.take(0).len() == 0);
    events.take(count).lemma_filter_len(|event: WindowEvent| event is Word);
}

/// What a window has noted behind the first events.
spec fn noted(events: Seq<WindowEvent>, last: bool, count: int) -> bool {
    &&& noted_edges(events, last, count)
    &&& noted_words(events, last, count)
    &&& noted_rows(events, last, count)
}

/// Whether the clock has fallen since it rose, or fell without a rise.
spec fn fallen(events: Seq<WindowEvent>, last: bool, count: int) -> bool {
    let rise = latest_edge(events, last, count, true);
    let fall = latest_edge(events, last, count, false);
    fall is Some && (rise is None || fall->0 > rise->0)
}

spec fn noted_edges(events: Seq<WindowEvent>, last: bool, count: int) -> bool {
    let window = window_after(events, last, count as nat);
    let rise = latest_edge(events, last, count, true);
    let fall = latest_edge(events, last, count, false);
    &&& window.words == words_before(events, count)
    &&& fallen(events, last, count) ==> !clock_level(events, last, count as nat)
    &&& window.current_rising == (if rise is Some {
        Some(place_of(events, rise))
    } else {
        None
    })
    &&& window.current_falling == (if fallen(events, last, count) {
        Some(place_of(events, fall))
    } else {
        None
    })
}

spec fn noted_words(events: Seq<WindowEvent>, last: bool, count: int) -> bool {
    let window = window_after(events, last, count as nat);
    let rise = latest_edge(events, last, count, true);
    let fall = latest_edge(events, last, count, false);
    &&& noted_word(
        events,
        last,
        rise is Some,
        rise->0,
        count,
        window.first_after_rising,
        window.need_after_rising,
    )
    &&& noted_word(
        events,
        last,
        fallen(events, last, count),
        fall->0,
        count,
        window.first_after_falling,
        window.need_after_falling,
    )
}

spec fn noted_rows(events: Seq<WindowEvent>, last: bool, count: int) -> bool {
    let records = window_after(events, last, count as nat).records;
    let rise = latest_edge(events, last, count, true);
    let fall = latest_edge(events, last, count, false);
    let open = fallen(events, last, count) && rise is Some;
    let falls = completing_falls(events, last, count);
    &&& falls.len() == records.len() + (if open {
        1nat
    } else {
        0nat
    })
    &&& open ==> falls.last() == fall->0
    &&& falls_known(events, last, count, falls)
    &&& rows_known(events, last, count, falls, records)
}

spec fn falls_known(events: Seq<WindowEvent>, last: bool, count: int, falls: Seq<int>) -> bool {
    forall|k: int|
        #![trigger falls[k]]
        0 <= k < falls.len() ==> 0 <= falls[k] < count && latest_edge(events, last, falls[k], true) is Some
}

spec fn rows_known(
    events: Seq<WindowEvent>,
    last: bool,
    count: int,
    falls: Seq<int>,
    records: Seq<TgckRecord>,
) -> bool {
    forall|k: int|
        0 <= k < records.len() ==> #[trigger] row_known(events, last, count, falls, records, k)
}

spec fn row_known(
    events: Seq<WindowEvent>,
    last: bool,
    count: int,
    falls: Seq<int>,
    records: Seq<TgckRecord>,
    k: int,
) -> bool {
    let rise = latest_edge(events, last, count, true);
    records[k] == row_of(events, last, falls[k], count) && rise is Some && rise->0 > falls[k]
}

spec fn noted_word(
    events: Seq<WindowEvent>,
    last: bool,
    known: bool,
    edge: int,
    count: int,
    first: Option<(usize, u64)>,
    need: bool,
) -> bool {
    if known {
        let word = first_word(events, last, edge + 1, count);
        &&& need <==> word is None
        &&& first == (if word is Some {
            Some(place_of(events, word))
        } else {
            None
        })
    } else {
        first is None && !need
    }
}

proof fn lemma_row_kept(events: Seq<WindowEvent>, last: bool, fall: int, count: int)
    requires
        0 <= fall < count,
        latest_edge(events, last, fall, true) is Some,
        !(events[count] is Word) || exists|k: int|
            fall < k < count && #[trigger] edge_at(events, last, k, true),
    ensures
        row_of(events, last, fall, count + 1) == row_of(events, last, fall, count),
{
    lemma_latest_edge(events, last, fall, true);
    let rise = latest_edge(events, last, fall, true)->0;
    if events[count] is Word {
        let k = choose|k: int| fall < k < count && #[trigger] edge_at(events, last, k, true);
        assert(fall + 1 <= k < count && edge_at(events, last, k, true));
        assert(rise + 1 <= k < count && edge_at(events, last, k, true));
    }
    lemma_first_word_grows(events, last, rise + 1, count);
    lemma_first_word_grows(events, last, fall + 1, count);
}

#[verifier::rlimit(60)]
proof fn lemma_noted(events: Seq<WindowEvent>, last: bool, count: int)
    requires
        0 <= count <= events.len(),
        events.len() <= usize::MAX,
    ensures
        noted(events, last, count),
    decreases count,
{
    if count == 0 {
        reveal(Seq::filter);
        assert(events.take(0).len() == 0);
        assert(window_after(events, last, 0).records.len() == 0);
    } else {
        let c = count - 1;
        lemma_noted(events, last, c);
        lemma_words_grow(events, c);
        lemma_latest_edge(events, last, c, true);
        lemma_latest_edge(events, last, c, false);
        let before = window_after(events, last, c as nat);
        let window = window_after(events, last, count as nat);
        let rise = latest_edge(events, last, c, true);
        let fall = latest_edge(events, last, c, false);
        let falls = completing_falls(events, last, c);
        if rise is Some {
            lemma_first_word_grows(events, last, rise->0 + 1, c);
        }
        if fall is Some {
            lemma_first_word_grows(events, last, fall->0 + 1, c);
        }
        let fallen = fallen(events, last, c);
        let open = fallen && rise is Some;
        assert forall|k: int| 0 <= k < before.records.len() implies row_of(
            events,
            last,
            falls[k],
            count,
        ) == #[trigger] before.records[k] by {
            assert(row_known(events, last, c, falls, before.records, k));
            assert(edge_at(events, last, rise->0, true));
            lemma_row_kept(events, last, falls[k], c);
        }
        if open {
            lemma_latest_edge_kept(events, last, fall->0, c);
            assert(latest_edge(events, last, fall->0, true) == rise);
        }
        if edge_at(events, last, c, true) {
            reveal_with_fuel(first_word, 1);
            if open {
                lemma_row_kept(events, last, fall->0, c);
                assert(window.records =~= before.records.push(
                    row_of(events, last, fall->0, count),
                ));
            } else {
                assert(window.records == before.records);
            }
            assert(completing_falls(events, last, count) == falls);
        } else if edge_at(events, last, c, false) {
            assert(!fallen);
            assert(window.records == before.records);
        } else {
            assert(window.records == before.records);
            assert(completing_falls(events, last, count) == falls);
        }
        let now = completing_falls(events, last, count);
        assert forall|k: int|
            #![trigger now[k]]
            0 <= k < now.len() implies 0 <= now[k] < count && latest_edge(
            events,
            last,
            now[k],
            true,
        ) is Some by {
            if k < falls.len() {
                assert(now[k] == falls[k]);
            }
        }
        let records = window.records;
        assert forall|k: int| 0 <= k < records.len() implies #[trigger] row_known(
            events,
            last,
            count,
            now,
            records,
            k,
        ) by {
            assert(now[k] == falls[k]);
            if k < before.records.len() {
                assert(row_known(events, last, c, falls, before.records, k));
                assert(before.records[k] == row_of(events, last, falls[k], count));
                assert(records[k] == before.records[k]);
            }
        }
        assert(falls_known(events, last, count, now));
        assert(rows_known(events, last, count, now, records));
        assert(noted_rows(events, last, count));
        assert(noted_words(events, last, count));
        assert(noted_edges(events, last, count));
    }
}

/// The rows of a window are the complete cycles of the clock that it saw, one row for each fall
/// behind a rise, in order. A row holds for each edge of the cycle how many words came before it and
/// when it was, and the same for the first word behind that edge, if one came before the next rise.
pub proof fn law_rows_are_the_complete_cycles(events: Seq<WindowEvent>, last: bool)
    requires
        events.len() <= usize::MAX,
    ensures
        ({
            let rows = window_after(events, last, events.len()).finalized().records;
            let falls = completing_falls(events, last, events.len() as int);
            &&& rows.len() == falls.len()
            &&& forall|k: int|
                #![trigger rows[k]]
                0 <= k < rows.len() ==> rows[k] == row_of(
                    events,
                    last,
                    falls[k],
                    events.len() as int,
                )
        }),
{
    let end = events.len() as int;
    lemma_noted(events, last, end);
    let rise = latest_edge(events, last, end, true);
    let fall = latest_edge(events, last, end, false);
    lemma_latest_edge(events, last, end, true);
    lemma_latest_edge(events, last, end, false);
    if fall is Some && rise is Some && fall->0 > rise->0 {
        lemma_latest_edge_kept(events, last, fall->0, end);
    }
    let window = window_after(events, last, events.len());
    let rows = window.finalized().records;
    let falls = completing_falls(events, last, end);
    assert forall|k: int|
        #![trigger rows[k]]
        0 <= k < rows.len() implies rows[k] == row_of(events, last, falls[k], end) by {
        if k < window.records.len() {
            assert(row_known(events, last, end, falls, window.records, k));
        }
    }
}

/// The falls that complete a cycle are exactly those with a rise before them, in order.
pub proof fn law_completing_falls(events: Seq<WindowEvent>, last: bool, count: int)
    requires
        0 <= count,
    ensures
        ({
            let falls = completing_falls(events, last, count);
            &&& forall|k: int, l: int| 0 <= k < l < falls.len() ==> #[trigger] falls[k] < #[trigger] falls[l]
            &&& forall|j: int|
                #![trigger falls.contains(j)]
                #![trigger edge_at(events, last, j, false)]
                falls.contains(j) <==> 0 <= j < count && edge_at(events, last, j, false)
                    && exists|i: int| 0 <= i < j && #[trigger] edge_at(events, last, i, true)
        }),
    decreases count,
{
    let falls = completing_falls(events, last, count);
    if count > 0 {
        let c = count - 1;
        law_completing_falls(events, last, c);
        lemma_latest_edge(events, last, c, true);
        let before = completing_falls(events, last, c);
        assert(forall|k: int| 0 <= k < before.len() ==> before.contains(#[trigger] before[k]));
        assert forall|j: int|
            #![trigger falls.contains(j)]
            #![trigger edge_at(events, last, j, false)]
            falls.contains(j) <==> 0 <= j < count && edge_at(events, last, j, false)
                && exists|i: int| 0 <= i < j && #[trigger] edge_at(events, last, i, true) by {
            if before.contains(j) {
                let k = choose|k: int| 0 <= k < before.len() && before[k] == j;
                assert(falls[k] == j);
            }
            if falls.contains(j) && j != c {
                let k = choose|k: int| 0 <= k < falls.len() && falls[k] == j;
                assert(before[k] == j);
            }
            if j == c && falls.len() > before.len() {
                assert(falls[before.len() as int] == c);
                assert(edge_at(events, last, latest_edge(events, last, c, true)->0, true));
            }
        }
    }
}

/// Rows stay: those that a window has are still there, in order, after any further events and when it
/// is closed.
pub proof fn law_rows_stay(events: Seq<WindowEvent>, last: bool, early: nat, late: nat)
    requires
        early <= late <= events.len(),
    ensures
        window_after(events, last, early).records.is_prefix_of(
            window_after(events, last, late).records,
        ),
        window_after(events, last, early).records.is_prefix_of(
            window_after(events, last, late).finalized().records,
        ),
    decreases late - early,
{
    if early < late {
        law_rows_stay(events, last, early, (late - 1) as nat);
    }
}

/// The clock edges that are due at a time are all those at the front that are not later than it.
pub proof fn law_due_edges(edges: Seq<Sample>, position: u64)
    ensures
        ({
            let due = due_edges(edges, position) as int;
            &&& due <= edges.len()
            &&& forall|i: int| 0 <= i < due ==> (#[trigger] edges[i]).start_time_ns <= position
            &&& due < edges.len() ==> edges[due].start_time_ns > position
        }),
    decreases edges.len(),
{
    if edges.len() > 0 && edges[0].start_time_ns <= position {
        let rest = edges.skip(1);
        law_due_edges(rest, position);
        let due = due_edges(edges, position) as int;
        assert forall|i: int| 0 <= i < due implies (#[trigger] edges[i]).start_time_ns <= position by {
            if i > 0 {
                assert(rest[i - 1] == edges[i]);
            }
        }
        if due < edges.len() {
            assert(rest[due - 1] == edges[due]);
        }
    }
}

/// Clock edges as events of a window.
pub open spec fn clock_events(edges: Seq<Sample>) -> Seq<WindowEvent> {
    edges.map_values(|edge: Sample| WindowEvent::Clock(edge))
}

proof fn lemma_same_window(
    events: Seq<WindowEvent>,
    longer: Seq<WindowEvent>,
    last: bool,
    count: nat,
)
    requires
        count <= events.len(),
        events.is_prefix_of(longer),
    ensures
        window_after(longer, last, count) == window_after(events, last, count),
        clock_level(longer, last, count) == clock_level(events, last, count),
    decreases count,
{
    if count > 0 {
        lemma_same_window(events, longer, last, (count - 1) as nat);
        assert(longer[count - 1] == events[count - 1]);
    }
}

/// A word reaches an open window behind the clock edges that are due, and the recorder keeps the
/// level of the clock for the next word.
pub proof fn law_word_comes_behind_the_due_edges(
    recorder: RecorderView,
    events: Seq<WindowEvent>,
    last: bool,
    edges: Seq<Sample>,
    position: u64,
)
    requires
        recorder.window == Some(window_after(events, last, events.len())),
        recorder.last_tgck == clock_level(events, last, events.len()),
    ensures
        ({
            let seen = events + clock_events(edges);
            let all = seen.push(WindowEvent::Word(position));
            let after = recorder.clocked(edges, edges.len()).worded(position);
            &&& after.window == Some(window_after(all, last, all.len()))
            &&& after.last_tgck == clock_level(all, last, all.len())
        }),
    decreases edges.len(),
{
    let seen = events + clock_events(edges);
    let all = seen.push(WindowEvent::Word(position));
    lemma_clocked(recorder, events, last, edges, edges.len());
    lemma_same_window(seen, all, last, seen.len());
    assert(events + clock_events(edges.take(edges.len() as int)) =~= seen) by {
        assert(edges.take(edges.len() as int) =~= edges);
    }
}

proof fn lemma_clocked(
    recorder: RecorderView,
    events: Seq<WindowEvent>,
    last: bool,
    edges: Seq<Sample>,
    count: nat,
)
    requires
        recorder.window == Some(window_after(events, last, events.len())),
        recorder.last_tgck == clock_level(events, last, events.len()),
        count <= edges.len(),
    ensures
        ({
            let seen = events + clock_events(edges.take(count as int));
            let after = recorder.clocked(edges, count);
            &&& after.window == Some(window_after(seen, last, seen.len()))
            &&& after.last_tgck == clock_level(seen, last, seen.len())
        }),
    decreases count,
{
    let seen = events + clock_events(edges.take(count as int));
    if count == 0 {
        assert(seen =~= events);
    } else {
        let less = (count - 1) as nat;
        lemma_clocked(recorder, events, last, edges, less);
        let before = events + clock_events(edges.take(less as int));
        assert(before.is_prefix_of(seen));
        lemma_same_window(before, seen, last, before.len());
        assert(seen.last() == WindowEvent::Clock(edges[less as int]));
    }
}

/// A word before any file name is not recorded, and the first one behind a name opens a window.
pub proof fn law_window_opens_with_its_first_word(recorder: RecorderView, position: u64)
    requires
        recorder.window is None,
    ensures
        recorder.current_filename is None ==> recorder.worded(position) == recorder,
        recorder.current_filename is Some ==> recorder.worded(position).window == Some(
            window_after(seq![WindowEvent::Word(position)], recorder.last_tgck, 1),
        ),
{
    reveal_with_fuel(window_after, 2);
}

/// All file names up to a time take over, and no later one. The first of them closes the window at
/// its own time, so that no row is lost or comes twice, and the last of them is the current one.
pub proof fn law_names_up_to_a_time_take_over(recorder: RecorderView, position: u64)
    ensures
        ({
            let taken = recorder.named(position);
            let names = recorder.pending_names;
            let passed = names.len() - taken.recorder.pending_names.len();
            &&& 0 <= passed <= names.len()
            &&& forall|i: int| 0 <= i < passed ==> (#[trigger] names[i]).start_time_ns <= position
            &&& passed < names.len() ==> names[passed].start_time_ns > position
            &&& passed == 0 ==> taken.recorder == recorder && taken.rows.len() == 0
            &&& passed > 0 ==> {
                &&& taken.recorder.window is None
                &&& taken.recorder.current_filename == Some(names[passed - 1].name)
                &&& taken.rows == closing_lines(recorder.window, names[0].start_time_ns)
            }
            &&& taken.recorder.last_tgck == recorder.last_tgck
        }),
    decreases recorder.pending_names.len(),
{
    let names = recorder.pending_names;
    if names.len() > 0 && names[0].start_time_ns <= position {
        let next = RecorderView {
            window: None,
            current_filename: Some(names[0].name),
            pending_names: names.skip(1),
            ..recorder
        };
        law_names_up_to_a_time_take_over(next, position);
        let taken = recorder.named(position);
        let passed = names.len() - taken.recorder.pending_names.len();
        assert forall|i: int| 0 <= i < passed implies (#[trigger] names[i]).start_time_ns <= position by {
            if i > 0 {
                assert(names.skip(1)[i - 1] == names[i]);
            }
        }
        if passed > 1 {
            assert(names.skip(1)[passed - 2] == names[passed - 1]);
        }
        if passed < names.len() {
            assert(names.skip(1)[passed - 1] == names[passed]);
        }
        assert(taken.rows =~= closing_lines(recorder.window, names[0].start_time_ns));
    }
}

/// The rows of a file go beside it, under its name without the extension and with a suffix.
pub proof fn law_rows_go_beside_the_file(
    directory: Seq<char>,
    stem: Seq<char>,
    extension: Seq<char>,
)
    requires
        directory.len() > 0,
        directory.last() != '/',
        !(directory.len() > 1 && directory.last() == '.' && directory[directory.len() - 2] == '/'),
        stem.len() > 0,
        extension.len() > 0,
        forall|i: int| 0 <= i < stem.len() ==> #[trigger] stem[i] != '/',
        forall|i: int| 0 <= i < extension.len() ==> #[trigger] extension[i] != '/' && extension[i]
            != '.',
    ensures
        csv_path(directory + seq!['/'] + (stem + seq!['.'] + extension)) == directory + seq!['/'] + (
        stem + "_tgck.csv"@),
{
    let name = stem + seq!['.'] + extension;
    assert(name.last() == extension.last());
    assert(extension[extension.len() - 1] != '.');
    assert(seq!['.', '.'].last() == '.' && seq!['.'].last() == '.');
    assert forall|i: int| 0 <= i < name.len() implies #[trigger] name[i] != '/' by {
        if i < stem.len() {
            assert(name[i] == stem[i]);
        } else if i > stem.len() {
            assert(name[i] == extension[i - stem.len() - 1]);
        }
    }
    law_stem_ends_at_the_last_dot(stem, extension);
    law_renamed_file_stays_in_its_directory(directory, name, stem + "_tgck.csv"@);
}

/// The fields of a line, which commas separate.
pub open spec fn fields_of(line: Seq<char>) -> Seq<Seq<char>>
    decreases line.len(),
{
    if line.len() == 0 {
        seq![Seq::empty()]
    } else if line.last() == ',' {
        fields_of(line.drop_last()).push(Seq::empty())
    } else {
        let fields = fields_of(line.drop_last());
        fields.drop_last().push(fields.last().push(line.last()))
    }
}

proof fn lemma_field_behind_comma(line: Seq<char>, field: Seq<char>)
    requires
        forall|i: int| 0 <= i < field.len() ==> #[trigger] field[i] != ',',
    ensures
        fields_of(line + ","@ + field) == fields_of(line).push(field),
        fields_of(field) == seq![field],
    decreases field.len(),
{
    reveal_strlit(",");
    let all = line + ","@ + field;
    if field.len() == 0 {
        assert(all.drop_last() =~= line);
        assert(field =~= Seq::empty());
    } else {
        lemma_field_behind_comma(line, field.drop_last());
        assert(all.drop_last() =~= line + ","@ + field.drop_last());
        assert(all.last() == field.last());
        let fields = fields_of(all.drop_last());
        assert(fields.drop_last() =~= fields_of(line));
        assert(field.drop_last().push(field.last()) =~= field);
        assert(fields_of(field).len() == 1);
        assert(fields_of(field) =~= seq![field]);
    }
}

proof fn lemma_decimal_has_no_comma(value: nat)
    ensures
        forall|i: int| 0 <= i < decimal(value).len() ==> #[trigger] decimal(value)[i] != ',',
    decreases value,
{
    let digits = decimal(value);
    if value >= 10 {
        let front = decimal(value / 10);
        lemma_decimal_has_no_comma(value / 10);
        assert(digits == front.push(digit_char((value % 10) as int)));
        assert forall|i: int| 0 <= i < digits.len() implies #[trigger] digits[i] != ',' by {
            if i < front.len() {
                assert(digits[i] == front[i]);
            }
        }
    } else {
        assert(digits[0] == digit_char(value as int));
    }
}

/// A row of a file has eight fields: byte index and time of the rise, of the fall, of the first word
/// behind the rise and of the first word behind the fall, each in decimal.
pub proof fn law_row_has_its_eight_numbers(record: TgckRecord)
    ensures
        fields_of(csv_line(record)) == seq![
            decimal(record.rising_byte_index as nat),
            decimal(record.rising_timestamp as nat),
            decimal(record.falling_byte_index as nat),
            decimal(record.falling_timestamp as nat),
            decimal(record.first_word_after_rising_byte_index as nat),
            decimal(record.first_word_after_rising_timestamp as nat),
            decimal(record.first_word_after_falling_byte_index as nat),
            decimal(record.first_word_after_falling_timestamp as nat),
        ],
{
    let numbers = seq![
        decimal(record.rising_byte_index as nat),
        decimal(record.rising_timestamp as nat),
        decimal(record.falling_byte_index as nat),
        decimal(record.falling_timestamp as nat),
        decimal(record.first_word_after_rising_byte_index as nat),
        decimal(record.first_word_after_rising_timestamp as nat),
        decimal(record.first_word_after_falling_byte_index as nat),
        decimal(record.first_word_after_falling_timestamp as nat),
    ];
    lemma_decimal_has_no_comma(record.rising_byte_index as nat);
    lemma_decimal_has_no_comma(record.rising_timestamp as nat);
    lemma_decimal_has_no_comma(record.falling_byte_index as nat);
    lemma_decimal_has_no_comma(record.falling_timestamp as nat);
    lemma_decimal_has_no_comma(record.first_word_after_rising_byte_index as nat);
    lemma_decimal_has_no_comma(record.first_word_after_rising_timestamp as nat);
    lemma_decimal_has_no_comma(record.first_word_after_falling_byte_index as nat);
    lemma_decimal_has_no_comma(record.first_word_after_falling_timestamp as nat);
    let c = ","@;
    let l0 = numbers[0];
    let l1 = l0 + c + numbers[1];
    let l2 = l1 + c + numbers[2];
    let l3 = l2 + c + numbers[3];
    let l4 = l3 + c + numbers[4];
    let l5 = l4 + c + numbers[5];
    let l6 = l5 + c + numbers[6];
    let l7 = l6 + c + numbers[7];
    lemma_field_behind_comma(l0, numbers[1]);
    lemma_field_behind_comma(l0, numbers[0]);
    lemma_field_behind_comma(l1, numbers[2]);
    lemma_field_behind_comma(l2, numbers[3]);
    lemma_field_behind_comma(l3, numbers[4]);
    lemma_field_behind_comma(l4, numbers[5]);
    lemma_field_behind_comma(l5, numbers[6]);
    lemma_field_behind_comma(l6, numbers[7]);
    assert(csv_line(record) == l7);
    assert(fields_of(l7) =~= numbers);
}

/// Closing a window gives nothing where it has no row. Else it gives the header and a line for each row,
/// all at the time of closing; a cycle under way that has both of its edges makes the last row.
pub proof fn law_closing_gives_every_row(window: WindowView, at: u64, i: int)
    requires
        0 <= i,
    ensures
        ({
            let lines = closing_lines(Some(window), at);
            let under_way = window.current_rising is Some && window.current_falling is Some;
            let rows = window.records.len() + if under_way {
                1nat
            } else {
                0nat
            };
            &&& lines.len() == if rows == 0 {
                0
            } else {
                rows + 1
            }
            &&& i < lines.len() ==> lines[i].time == at
            &&& rows > 0 ==> lines[0].text == csv_header()
            &&& i < window.records.len() ==> lines[i + 1].text == csv_line(window.records[i])
        }),
        closing_lines(None, at).len() == 0,
{
    let lines = closing_lines(Some(window), at);
    let closed = window.finalized();
    if i < window.records.len() {
        assert(closed.records[i] == window.records[i]);
        assert(lines[i + 1].text == closed.lines()[i + 1]);
    }
}

} // verus!
