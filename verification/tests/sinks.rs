//! Line recorder and text file writer.

use std::collections::BTreeMap;

use logic_analyzer_processing::sinks::text_file_writer::{TextFileWriter, WriterAction};
use logic_analyzer_processing::sinks::tgck_recorder::{
    tgck_csv_path, TgckRecord, TgckRecorder, TgckStep, Window,
};
use logic_analyzer_processing::streams::{Sample, TextSample};

fn name_change(stem: &str, start_time_ns: u64) -> TextSample {
    TextSample::new(format!("{stem}.bin"), start_time_ns)
}

/// Runs a recorder; gives the rows and the file names.
fn record(names: Vec<TextSample>, edges: &[Sample], words: &[u64]) -> (Vec<String>, Vec<String>) {
    let mut recorder = TgckRecorder::new();
    for name in names {
        recorder.offer_name(name);
    }
    let mut rows = Vec::new();
    let mut filenames = Vec::new();
    let mut at = 0;
    for &position in words {
        // The edges arrive one by one.
        let mut arrived = at;
        loop {
            match recorder.work(position, &edges[at..arrived], arrived == edges.len()) {
                TgckStep::NeedMore => arrived += 1,
                TgckStep::Done {
                    rows: new_rows,
                    filenames: new_names,
                    consumed,
                } => {
                    rows.extend(new_rows);
                    filenames.extend(new_names);
                    at += consumed;
                    break;
                }
            }
        }
    }
    rows.extend(recorder.finish());
    let texts = |samples: Vec<TextSample>| samples.into_iter().map(|sample| sample.value).collect();
    (texts(rows), texts(filenames))
}

#[test]
fn records_line_boundaries_per_window() {
    let (rows, filenames) = record(
        vec![name_change("capture_0001", 0), name_change("capture_0002", 200)],
        &[
            Sample::new(true, 101),
            Sample::new(false, 103),
            Sample::new(true, 200),
            Sample::new(false, 300),
        ],
        &[100, 101, 102, 103, 104, 200, 201],
    );
    assert_eq!(
        filenames,
        vec!["capture_0001_tgck.csv", "capture_0002_tgck.csv"]
    );
    assert_eq!(rows.len(), 2, "header + one record: {rows:?}");
    assert!(rows[0].starts_with("rising_byte_index"));
    // Edges ≤ a word's position are drained before that word counts:
    // rising@101 lands at byte index 1 (only word@100 written) and the
    // word@101 is the first word after it; falling@103 at index 3 with
    // word@103 the first after.
    assert_eq!(rows[1], "1,101,3,103,1,101,3,103");
}

#[test]
fn no_rows_without_records() {
    let (rows, filenames) = record(vec![name_change("capture_0001", 0)], &[], &[100]);
    // The filename still passes through (level contract)...
    assert_eq!(filenames, vec!["capture_0001_tgck.csv"]);
    // ...but no CSV rows were ever produced.
    assert!(rows.is_empty());
}

#[test]
fn a_record_is_a_row() {
    let record = TgckRecord {
        rising_byte_index: 1,
        rising_timestamp: 2,
        falling_byte_index: 3,
        falling_timestamp: 4,
        first_word_after_rising_byte_index: 5,
        first_word_after_rising_timestamp: 6,
        first_word_after_falling_byte_index: 7,
        first_word_after_falling_timestamp: 8,
    };
    assert_eq!(record.csv_row(), "1,2,3,4,5,6,7,8");
    let mut window = Window::new();
    assert!(window.csv_lines().is_none());
    window.records.push(record);
    assert_eq!(window.csv_lines().unwrap().len(), 2);
}

#[test]
fn a_name_without_stem_gets_a_default() {
    assert_eq!(tgck_csv_path(""), "capture_tgck.csv");
    assert_eq!(tgck_csv_path("out/.."), "out/../capture_tgck.csv");
    assert_eq!(tgck_csv_path("/"), "/capture_tgck.csv");
}

#[test]
fn a_line_file_stands_beside_its_capture() {
    assert_eq!(tgck_csv_path("output/capture_0001.bin"), "output/capture_0001_tgck.csv");
    assert_eq!(tgck_csv_path("capture_0001.bin"), "capture_0001_tgck.csv");
    assert_eq!(tgck_csv_path("/a//b.tar.gz/"), "/a/b.tar_tgck.csv");
    assert_eq!(tgck_csv_path("./a/./.hidden"), "./a/.hidden_tgck.csv");
    for path in ["output/c.bin", "a//b", "a/./b/.", "x", "../y.z", "./c", "/d.e.f", "..", "a/..", "."] {
        let plain = std::path::Path::new(path);
        let stem = plain.file_stem().map_or("capture".into(), |stem| stem.to_string_lossy());
        let expected = plain.with_file_name(format!("{stem}_tgck.csv"));
        assert_eq!(tgck_csv_path(path), expected.display().to_string(), "{path}");
    }
}

#[test]
fn a_half_cycle_gives_no_lines() {
    let edges = [Sample::new(true, 101)];
    let (rows, _) = record(vec![name_change("capture_0001", 0)], &edges, &[100, 101, 102]);
    assert!(rows.is_empty());
    let mut window = Window::new();
    window.current_rising = Some((1, 101));
    window.finalize_record();
    assert!(window.csv_lines().is_none());
    window.current_rising = Some((1, 101));
    window.current_falling = Some((3, 103));
    window.finalize_record();
    assert_eq!(window.csv_lines().unwrap()[1], "1,101,3,103,0,0,0,0");
    // A fall before the rise does not complete a cycle.
    let edges = [
        Sample::new(true, 50),
        Sample::new(false, 101),
        Sample::new(true, 102),
    ];
    let (rows, _) = record(vec![name_change("capture_0001", 0)], &edges, &[100, 101, 102, 103]);
    assert!(rows.is_empty());
}

/// Runs a writer over lines and names; gives what the files hold.
fn write(names: &[(&str, u64)], lines: &[(String, u64)]) -> BTreeMap<String, String> {
    let mut writer = TextFileWriter::new();
    assert!(writer.awaits_name());
    for (name, time) in names {
        writer.offer_name(TextSample::new(name.to_string(), *time));
    }
    let mut files: BTreeMap<String, String> = BTreeMap::new();
    let mut open: Option<String> = None;
    for (line, time) in lines {
        let (actions, written) = writer.work(TextSample::new(line.clone(), *time));
        assert!(written);
        for action in actions {
            match action {
                WriterAction::Close => assert!(open.take().is_some()),
                WriterAction::Create(name) => {
                    assert!(open.is_none());
                    files.insert(name.clone(), String::new());
                    open = Some(name);
                }
                WriterAction::Write(text) => {
                    let file = files.get_mut(open.as_ref().unwrap()).unwrap();
                    file.push_str(&text);
                    file.push('\n');
                }
            }
        }
    }
    assert!(matches!(writer.close_current(), Some(WriterAction::Close)));
    assert!(writer.close_current().is_none());
    files
}

#[test]
fn writes_lines_to_named_file() {
    let files = write(
        &[("out.csv", 0)],
        &[("a,b,c".to_string(), 10), ("1,2,3".to_string(), 20)],
    );
    assert_eq!(files["out.csv"], "a,b,c\n1,2,3\n");
}

#[test]
fn rolls_files_on_name_changes() {
    let files = write(
        &[("a.csv", 0), ("b.csv", 1_000)],
        &[
            ("one".to_string(), 100),
            ("two".to_string(), 200),
            ("three".to_string(), 1_000),
        ],
    );
    assert_eq!(files["a.csv"], "one\ntwo\n");
    // The line at exactly the boundary timestamp lands in the new file.
    assert_eq!(files["b.csv"], "three\n");
}

#[test]
fn empty_name_window_creates_no_file() {
    // All lines arrive after the second name — window "a" stays empty.
    let files = write(
        &[("a.csv", 0), ("b.csv", 500)],
        &[("only".to_string(), 600)],
    );
    assert!(!files.contains_key("a.csv"));
    assert_eq!(files["b.csv"], "only\n");
}

#[test]
fn shutdown_flushes_open_file() {
    let lines: Vec<(String, u64)> = (0..10u64).map(|i| (format!("line{i}"), 100 + i)).collect();
    let files = write(&[("only.csv", 0)], &lines);
    let content = &files["only.csv"];
    assert_eq!(content.lines().count(), 10);
    assert_eq!(content.lines().last(), Some("line9"));
}

#[test]
fn a_line_before_any_name_is_not_written() {
    let mut writer = TextFileWriter::new();
    writer.offer_name(TextSample::new("late.csv".to_string(), 50));
    let (actions, written) = writer.work(TextSample::new("early".to_string(), 10));
    assert!(actions.is_empty());
    assert!(!written);
}
