use companion::lines::{collect_lines, decode_lines, split_lines};
use companion::snapshot::{get_logs, keep_last, line_limit, snapshot, LogsReply, DEFAULT_LINES};
use companion::tracker::{plan_read, read_new_lines, FileTracker, ReadError, ReadPlan};

fn strings(items: &[&str]) -> Vec<String> {
    items.iter().map(|s| s.to_string()).collect()
}

#[test]
fn reads_appended_lines_and_recovers_from_truncation() {
    let mut offset: u64 = 0;
    let first = read_new_lines(Some(b"a\nb\nc\n"), &mut offset).unwrap();
    assert_eq!(first, strings(&["a", "b", "c"]));
    assert_eq!(offset, 6);

    let second = read_new_lines(Some(b"a\nb\nc\nd\n"), &mut offset).unwrap();
    assert_eq!(second, strings(&["d"]));
    assert_eq!(offset, 8);

    let third = read_new_lines(Some(b"x\n"), &mut offset).unwrap();
    assert_eq!(third, strings(&["x"]));
    assert_eq!(offset, 2);
}

#[test]
fn snapshot_of_two_lines_on_a_five_line_file() {
    let s = snapshot(b"one\ntwo\nthree\nfour\nfive\n", 2);
    assert_eq!(s.lines, strings(&["four", "five"]));
    assert_eq!(s.total, 5);
    assert_eq!(s.showing, 2);
}

#[test]
fn reading_twice_without_writes_returns_nothing() {
    let content = b"alpha\nbeta\n";
    let mut offset: u64 = 0;
    let _ = read_new_lines(Some(content), &mut offset).unwrap();
    assert_eq!(offset, 11);
    let again = read_new_lines(Some(content), &mut offset).unwrap();
    assert!(again.is_empty());
    assert_eq!(offset, 11);
    let third = read_new_lines(Some(content), &mut offset).unwrap();
    assert!(third.is_empty());
    assert_eq!(offset, 11);
}

#[test]
fn offsets_do_not_fall_while_the_file_grows() {
    let stages: [&[u8]; 4] = [b"", b"a\n", b"a\nbb\n", b"a\nbb\nccc"];
    let mut offset: u64 = 0;
    let mut last: u64 = 0;
    for content in stages {
        let _ = read_new_lines(Some(content), &mut offset).unwrap();
        assert!(offset >= last);
        assert_eq!(offset, content.len() as u64);
        last = offset;
    }
}

#[test]
fn truncation_reads_the_new_file_from_its_start() {
    let mut offset: u64 = 500;
    let lines = read_new_lines(Some(b"fresh\nstart\n"), &mut offset).unwrap();
    assert_eq!(lines, strings(&["fresh", "start"]));
    assert_eq!(offset, 12);

    let mut from_zero: u64 = 0;
    assert_eq!(read_new_lines(Some(b"fresh\nstart\n"), &mut from_zero).unwrap(), lines);
}

#[test]
fn truncation_to_nothing_resets_the_offset() {
    let mut offset: u64 = 8;
    let lines = read_new_lines(Some(b""), &mut offset).unwrap();
    assert!(lines.is_empty());
    assert_eq!(offset, 0);
}

#[test]
fn lines_come_in_the_order_of_the_file() {
    let lines = collect_lines(b"3\n1\n2\n1\n");
    assert_eq!(lines, strings(&["3", "1", "2", "1"]));
}

#[test]
fn unterminated_last_line_is_returned_at_once() {
    let mut offset: u64 = 0;
    let lines = read_new_lines(Some(b"done\npart"), &mut offset).unwrap();
    assert_eq!(lines, strings(&["done", "part"]));
    assert_eq!(offset, 9);
    let rest = read_new_lines(Some(b"done\npartial\n"), &mut offset).unwrap();
    assert_eq!(rest, strings(&["ial"]));
    assert_eq!(offset, 13);
}

#[test]
fn carriage_return_goes_with_the_line_feed_only() {
    assert_eq!(split_lines(b"a\r\nb\rc\n\r\nd\r"), vec![
        b"a".to_vec(),
        b"b\rc".to_vec(),
        b"".to_vec(),
        b"d\r".to_vec(),
    ]);
}

#[test]
fn empty_lines_are_lines() {
    assert_eq!(collect_lines(b"\n\nx\n"), strings(&["", "", "x"]));
    assert!(collect_lines(b"").is_empty());
    assert_eq!(collect_lines(b"\n"), strings(&[""]));
}

#[test]
fn lines_that_are_not_utf8_are_left_out() {
    let raw = vec![b"ok".to_vec(), vec![0xff, 0xfe], "h\u{e9}".as_bytes().to_vec(), vec![0xc3]];
    assert_eq!(decode_lines(raw), strings(&["ok", "h\u{e9}"]));
    assert_eq!(collect_lines(b"a\n\xff\nb\n"), strings(&["a", "b"]));
}

#[test]
fn plan_says_when_there_is_nothing_to_read() {
    assert_eq!(plan_read(6, 6), ReadPlan::UpToDate);
    assert_eq!(plan_read(0, 0), ReadPlan::UpToDate);
    assert_eq!(plan_read(6, 8), ReadPlan::ReadFrom(6));
    assert_eq!(plan_read(8, 2), ReadPlan::ReadFrom(0));
    assert_eq!(plan_read(8, 0), ReadPlan::UpToDate);
}

#[test]
fn tracker_starts_at_zero_without_a_path() {
    let t = FileTracker::new();
    assert_eq!(t.read_offset(), 0);
    assert_eq!(t.log_path().as_str(), "");
}

#[test]
fn tracker_moves_forward_and_resets() {
    let mut t = FileTracker::new();
    t.track("/var/log/app.log".to_string(), 40);
    assert_eq!(t.read_offset(), 40);
    assert_eq!(t.log_path().as_str(), "/var/log/app.log");
    t.advance(55);
    assert_eq!(t.read_offset(), 55);
    t.reset();
    assert_eq!(t.read_offset(), 0);
    assert_eq!(t.log_path().as_str(), "/var/log/app.log");
}

#[test]
fn tracker_reads_in_two_halves() {
    let mut t = FileTracker::new();
    t.track("log".to_string(), 6);
    assert_eq!(t.begin_read(6), ReadPlan::UpToDate);
    assert_eq!(t.read_offset(), 6);
    assert_eq!(t.begin_read(8), ReadPlan::ReadFrom(6));
    assert_eq!(t.finish_read(8, b"d\n"), strings(&["d"]));
    assert_eq!(t.read_offset(), 8);
    assert_eq!(t.begin_read(2), ReadPlan::ReadFrom(0));
    assert_eq!(t.read_offset(), 0);
    assert_eq!(t.finish_read(2, b"x\n"), strings(&["x"]));
    assert_eq!(t.read_offset(), 2);
}

#[test]
fn tracker_reads_a_whole_file() {
    let mut t = FileTracker::new();
    assert_eq!(t.read_new(b"a\nb\n"), strings(&["a", "b"]));
    assert_eq!(t.read_offset(), 4);
    assert!(t.read_new(b"a\nb\n").is_empty());
    assert_eq!(t.read_new(b"a\nb\nc\n"), strings(&["c"]));
    assert_eq!(t.read_offset(), 6);
}

#[test]
fn a_later_read_returns_what_two_reads_would_have() {
    let mut one: u64 = 4;
    let mut two: u64 = 4;
    let first = read_new_lines(Some(b"a\nb\nc\n"), &mut two).unwrap();
    let second = read_new_lines(Some(b"a\nb\nc\nd\ne\n"), &mut two).unwrap();
    let both = read_new_lines(Some(b"a\nb\nc\nd\ne\n"), &mut one).unwrap();
    let mut chained = first;
    chained.extend(second);
    assert_eq!(both, chained);
    assert_eq!(one, two);
}

#[test]
fn snapshot_shows_everything_when_the_file_is_short() {
    let s = snapshot(b"a\nb\n", 100);
    assert_eq!(s.lines, strings(&["a", "b"]));
    assert_eq!(s.total, 2);
    assert_eq!(s.showing, 2);
    let none = snapshot(b"a\nb\n", 0);
    assert!(none.lines.is_empty());
    assert_eq!(none.total, 2);
    assert_eq!(none.showing, 0);
    let empty = snapshot(b"", 5);
    assert!(empty.lines.is_empty());
    assert_eq!(empty.total, 0);
    assert_eq!(empty.showing, 0);
}

#[test]
fn keep_last_keeps_the_order() {
    assert_eq!(keep_last(strings(&["1", "2", "3", "4"]), 3), strings(&["2", "3", "4"]));
    assert_eq!(keep_last(strings(&["1", "2"]), 2), strings(&["1", "2"]));
    assert_eq!(keep_last(Vec::new(), 2), Vec::<String>::new());
}

#[test]
fn line_limit_defaults_to_a_hundred() {
    assert_eq!(DEFAULT_LINES, 100);
    assert_eq!(line_limit(None), 100);
    assert_eq!(line_limit(Some(7)), 7);
    assert_eq!(line_limit(Some(0)), 0);
}

#[test]
fn get_logs_answers_for_a_missing_file() {
    assert!(matches!(get_logs(None, Some(3)), LogsReply::NotFound));
    assert!(matches!(get_logs(None, None), LogsReply::NotFound));
}

#[test]
fn get_logs_shows_the_last_hundred_by_default() {
    let mut content: Vec<u8> = Vec::new();
    for i in 0..150 {
        content.extend_from_slice(format!("line {}\n", i).as_bytes());
    }
    match get_logs(Some(&content), None) {
        LogsReply::Found(s) => {
            assert_eq!(s.total, 150);
            assert_eq!(s.showing, 100);
            assert_eq!(s.lines.len(), 100);
            assert_eq!(s.lines[0], "line 50");
            assert_eq!(s.lines[99], "line 149");
        }
        LogsReply::NotFound => panic!("the file is there"),
    }
    match get_logs(Some(&content), Some(1)) {
        LogsReply::Found(s) => {
            assert_eq!(s.lines, strings(&["line 149"]));
            assert_eq!(s.total, 150);
            assert_eq!(s.showing, 1);
        }
        LogsReply::NotFound => panic!("the file is there"),
    }
}

#[test]
fn stream_after_snapshot_delivers_only_what_is_written_after_its_start() {
    let seen = b"a\nb\n".to_vec();
    let shown = snapshot(&seen, 10);
    assert_eq!(shown.lines, strings(&["a", "b"]));

    let mut at_start = seen.clone();
    at_start.extend_from_slice(b"c\n");
    let mut t = FileTracker::new();
    t.track("log".to_string(), at_start.len() as u64);

    let mut later = at_start.clone();
    later.extend_from_slice(b"d\ne\n");
    let delivered = t.read_new(&later);
    assert_eq!(delivered, strings(&["d", "e"]));
    assert_eq!(t.read_offset(), later.len() as u64);
}

#[test]
fn a_file_that_cannot_be_opened_fails_the_read() {
    let mut offset: u64 = 17;
    assert_eq!(read_new_lines(None, &mut offset), Err(ReadError::CannotOpen));
    assert_eq!(offset, 17);
}

#[test]
fn valid_text_loses_no_line() {
    let content = "one\r\nzw\u{e9}i\n\n\u{4e09}\nlast".as_bytes();
    let raw = split_lines(content);
    let text = collect_lines(content);
    assert_eq!(raw.len(), 5);
    assert_eq!(text.len(), raw.len());
    for (line, bytes) in text.iter().zip(raw.iter()) {
        assert_eq!(line.as_bytes(), bytes.as_slice());
    }
    assert_eq!(text, strings(&["one", "zw\u{e9}i", "", "\u{4e09}", "last"]));
}
