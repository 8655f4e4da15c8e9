use logwatcher::tail_reader::{plan_read, read_new_content, read_tail, ReadPlan};
use logwatcher::text::{split_byte_lines, split_text_lines};

fn tail(content: &str, n: usize) -> (Vec<String>, u64) {
    read_tail(content.len() as u64, &content.as_bytes().to_vec(), n)
}

#[test]
fn read_tail_returns_last_n_lines() {
    let mut content = String::new();
    for i in 1..=10 {
        content.push_str(&format!("line {}\n", i));
    }
    let (lines, size) = tail(&content, 3);
    assert_eq!(lines, vec!["line 8", "line 9", "line 10"]);
    assert!(size > 0);
}

#[test]
fn read_tail_returns_all_when_fewer_than_n() {
    let (lines, _) = tail("only\ntwo\n", 50);
    assert_eq!(lines, vec!["only", "two"]);
}

#[test]
fn read_tail_empty_file() {
    let (lines, size) = tail("", 10);
    assert!(lines.is_empty());
    assert_eq!(size, 0);
}

#[test]
fn read_tail_single_line_no_newline() {
    let (lines, size) = tail("no trailing newline", 10);
    assert_eq!(lines, vec!["no trailing newline"]);
    assert!(size > 0);
}

/// Read what is new in a file whose content went from one text to another.
fn read_changed(before: &str, after: &str, max_lines: usize) -> (Vec<String>, u64) {
    let last_size = before.len() as u64;
    let current_size = after.len() as u64;
    let content = match plan_read(last_size, current_size) {
        ReadPlan::Whole => after.as_bytes().to_vec(),
        ReadPlan::Nothing => Vec::new(),
        ReadPlan::From(offset) => after.as_bytes()[offset as usize..].to_vec(),
    };
    read_new_content(last_size, current_size, &content, max_lines)
}

#[test]
fn read_new_content_appended() {
    let (lines, new_size) = read_changed("hello\n", "hello\nworld\n", 50);
    assert_eq!(lines, vec!["world"]);
    assert!(new_size > 6);
}

#[test]
fn read_new_content_no_change() {
    let (lines, returned_size) = read_changed("hello\n", "hello\n", 50);
    assert!(lines.is_empty());
    assert_eq!(returned_size, 6);
}

#[test]
fn read_new_content_detects_truncation() {
    let old_size = "long content here\nand more\n".len() as u64;
    let (lines, new_size) = read_changed("long content here\nand more\n", "short\n", 50);
    assert_eq!(lines, vec!["short"]);
    assert!(new_size < old_size);
}

#[test]
fn read_new_content_multiple_lines() {
    let (lines, _) = read_changed("line1\n", "line1\nline2\nline3\nline4\n", 50);
    assert_eq!(lines, vec!["line2", "line3", "line4"]);
}

#[test]
fn appended_lines_are_not_limited() {
    let (lines, size) = read_changed("a\n", "a\nb\nc\nd\n", 1);
    assert_eq!(lines, vec!["b", "c", "d"]);
    assert_eq!(size, 8);
}

#[test]
fn a_truncated_file_gives_its_last_lines() {
    let (lines, size) = read_changed("0123456789", "a\nb\nc\n", 2);
    assert_eq!(lines, vec!["b", "c"]);
    assert_eq!(size, 6);
    let (lines, size) = read_changed("0123456789", "", 2);
    assert!(lines.is_empty());
    assert_eq!(size, 0);
}

#[test]
fn lines_that_are_not_utf8_are_left_out_of_a_tail() {
    let content = b"good\n\xff\xfe\nalso good\n".to_vec();
    let (lines, size) = read_tail(content.len() as u64, &content, 10);
    assert_eq!(lines, vec!["good", "also good"]);
    assert_eq!(size, 18);
}

#[test]
fn bytes_that_are_not_utf8_are_replaced_in_what_is_new() {
    let content = b"a\xffb\nc".to_vec();
    let (lines, _) = read_new_content(5, 10, &content, 10);
    assert_eq!(lines, vec!["a\u{fffd}b", "c"]);
}

#[test]
fn what_is_not_looked_at_does_not_count() {
    let (lines, size) = read_tail(0, &b"unread\n".to_vec(), 10);
    assert!(lines.is_empty());
    assert_eq!(size, 0);
}

#[test]
fn carriage_returns_before_line_feeds_are_dropped() {
    let (lines, _) = tail("one\r\ntwo\r\r\n\r\nlast\r", 10);
    assert_eq!(lines, vec!["one", "two\r", "", "last\r"]);
    assert_eq!(split_text_lines("one\r\ntwo\r\r\n\r\nlast\r"), vec!["one", "two\r", "", "last\r"]);
    assert_eq!(split_byte_lines(&b"x\r\ny".to_vec()), vec![b"x".to_vec(), b"y".to_vec()]);
}

#[test]
fn plans_depend_on_the_sizes() {
    assert_eq!(plan_read(10, 4), ReadPlan::Whole);
    assert_eq!(plan_read(10, 10), ReadPlan::Nothing);
    assert_eq!(plan_read(10, 11), ReadPlan::From(10));
}

#[test]
fn following_a_file_equals_reading_it_again() {
    let whole = "first\nsecond\u{e4}\nthird\n";
    let split = "first\n".len();
    let (mut lines, _) = tail(&whole[..split], 100);
    let (more, _) = read_changed(&whole[..split], whole, 100);
    lines.extend(more);
    let (again, _) = tail(whole, 100);
    assert_eq!(lines, again);
}
