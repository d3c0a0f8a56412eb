use hasuchanbot::file_data::{file_text_of, split_lines_of, FileData};

fn strings(v: &[&str]) -> Vec<String> {
    v.iter().map(|s| s.to_string()).collect()
}

#[test]
fn lines_split_as_buf_read_does() {
    assert_eq!(split_lines_of(""), strings(&[]));
    assert_eq!(split_lines_of("a\nb"), strings(&["a", "b"]));
    assert_eq!(split_lines_of("a\n"), strings(&["a"]));
    assert_eq!(split_lines_of("\n"), strings(&[""]));
    assert_eq!(split_lines_of("a\r\nb\r"), strings(&["a", "b\r"]));
    assert_eq!(split_lines_of("x\n\ny\n"), strings(&["x", "", "y"]));
}

#[test]
fn file_text_ends_each_line() {
    assert_eq!(file_text_of(&strings(&["a", "貼"])), "a\n貼\n");
    assert_eq!(file_text_of(&strings(&[])), "");
}

#[test]
fn written_lines_read_back() {
    let lines = strings(&["one", "", "three 3", "貼貼"]);
    assert_eq!(split_lines_of(&file_text_of(&lines)), lines);
}

#[test]
fn new_keeps_lines_as_they_are() {
    let d = FileData::new("f.lst".to_string(), "b\na\nb\n", false);
    assert_eq!(d.content, strings(&["b", "a", "b"]));
    assert_eq!(d.file_name, "f.lst");
    assert!(!d.if_unique);
}

#[test]
fn new_unique_sorts_and_drops_repeats() {
    let d = FileData::new("f.lst".to_string(), "b\na\nb\n貼\nZ\n\na", true);
    assert_eq!(d.content, strings(&["", "Z", "a", "b", "貼"]));
    assert_eq!(d.file_text(), "\nZ\na\nb\n貼\n");
    let mut expected: Vec<String> = strings(&["b", "a", "b", "貼", "Z", "", "a"]);
    expected.sort();
    expected.dedup();
    assert_eq!(d.content, expected);
}

#[test]
fn save_appends_and_gives_the_new_text() {
    let mut d = FileData::new("q.lst".to_string(), "x\n", true);
    let text = d.save("y".to_string());
    assert_eq!(d.content, strings(&["x", "y"]));
    assert_eq!(text, "x\ny\n");
    let text = d.save("a".to_string());
    assert_eq!(text, "x\ny\na\n");
}

#[test]
fn loading_a_unique_file_twice_changes_nothing() {
    let first = FileData::new("f".to_string(), "b\r\nb\nc\na\n", true);
    let written = first.file_text();
    let second = FileData::new("f".to_string(), &written, true);
    assert_eq!(second.content, first.content);
    assert_eq!(second.file_text(), written);
}
