use varexpand::Context;
use varexpand::Document;
use varexpand::Error;
use varexpand::Expanded;
use varexpand::Selection;
use varexpand::expand_variables;

fn ctx(
    path: Option<&str>,
    text: &str,
    anchor: usize,
    head: usize,
    working_dir: Option<&str>,
) -> Context {
    Context {
        doc: Document { path: path.map(String::from), text: String::from(text) },
        selection: Selection { anchor, head },
        working_dir: working_dir.map(String::from),
    }
}

#[test]
fn no_marker_returns_input_borrowed() {
    let c = ctx(None, "", 0, 0, None);
    let r = expand_variables(&c, "hello world").unwrap();
    assert!(matches!(r.value, Expanded::Borrowed(_)));
    assert_eq!(r.value.as_str(), "hello world");
    assert!(!r.malformed);
}

#[test]
fn empty_input_is_borrowed() {
    let c = ctx(None, "", 0, 0, None);
    let r = expand_variables(&c, "").unwrap();
    assert!(matches!(r.value, Expanded::Borrowed(_)));
    assert_eq!(r.value.as_str(), "");
}

#[test]
fn basename_expands() {
    let c = ctx(Some("/tmp/notes.txt"), "", 0, 0, None);
    let r = expand_variables(&c, "%{basename}").unwrap();
    assert_eq!(r.value.as_str(), "notes.txt");
}

#[test]
fn filename_expands() {
    let c = ctx(Some("/tmp/notes.txt"), "", 0, 0, None);
    let r = expand_variables(&c, "%{filename}").unwrap();
    assert_eq!(r.value.as_str(), "/tmp/notes.txt");
}

#[test]
fn scratch_document_uses_sentinel() {
    let c = ctx(None, "", 0, 0, None);
    let r = expand_variables(&c, "%{basename}").unwrap();
    assert_eq!(r.value.as_str(), "[scratch]");
    let r = expand_variables(&c, "%{filename}").unwrap();
    assert_eq!(r.value.as_str(), "[scratch]");
}

#[test]
fn unknown_variable_fails() {
    let c = ctx(Some("/tmp/notes.txt"), "abc", 0, 0, Some("/home"));
    let r = expand_variables(&c, "%{nonsense}");
    assert!(matches!(r, Err(Error::UnknownVariable)));
}

#[test]
fn unknown_variable_aborts_whole_call() {
    let c = ctx(None, "", 0, 0, None);
    let r = expand_variables(&c, "pre %{nonsense} post");
    assert!(matches!(r, Err(Error::UnknownVariable)));
}

#[test]
fn unterminated_block_passes_rest_through() {
    let c = ctx(Some("/tmp/notes.txt"), "", 0, 0, None);
    let r = expand_variables(&c, "%{filename").unwrap();
    assert_eq!(r.value.as_str(), "filename");
    assert!(r.malformed);
}

#[test]
fn unterminated_block_keeps_earlier_output() {
    let c = ctx(None, "", 0, 0, None);
    let r = expand_variables(&c, "a%{xyz").unwrap();
    assert_eq!(r.value.as_str(), "axyz");
    assert!(r.malformed);
}

#[test]
fn lone_marker_is_literal() {
    let c = ctx(None, "", 0, 0, None);
    let r = expand_variables(&c, "100% complete").unwrap();
    assert_eq!(r.value.as_str(), "100% complete");
    assert!(matches!(r.value, Expanded::Owned(_)));
    assert!(!r.malformed);
}

#[test]
fn marker_before_plain_letter_is_literal() {
    let c = ctx(None, "", 0, 0, None);
    let r = expand_variables(&c, "%x").unwrap();
    assert_eq!(r.value.as_str(), "%x");
}

#[test]
fn linenumber_on_first_line() {
    let c = ctx(None, "hello\nworld", 3, 3, None);
    let r = expand_variables(&c, "%{linenumber}").unwrap();
    assert_eq!(r.value.as_str(), "1");
}

#[test]
fn linenumber_on_second_line() {
    let c = ctx(None, "hello\nworld", 7, 7, None);
    let r = expand_variables(&c, "%{linenumber}").unwrap();
    assert_eq!(r.value.as_str(), "2");
}

#[test]
fn linenumber_in_empty_text() {
    let c = ctx(None, "", 0, 0, None);
    let r = expand_variables(&c, "%{linenumber}").unwrap();
    assert_eq!(r.value.as_str(), "1");
}

#[test]
fn linenumber_with_two_digits() {
    let text: String = "\n".repeat(11);
    let c = ctx(None, &text, 11, 11, None);
    let r = expand_variables(&c, "%{linenumber}").unwrap();
    assert_eq!(r.value.as_str(), "12");
}

#[test]
fn selection_spans_text() {
    let c = ctx(None, "say hello now", 4, 9, None);
    let r = expand_variables(&c, "%{selection}").unwrap();
    assert_eq!(r.value.as_str(), "hello");
}

#[test]
fn selection_direction_does_not_matter() {
    let c = ctx(None, "say hello now", 9, 4, None);
    let r = expand_variables(&c, "%{selection}").unwrap();
    assert_eq!(r.value.as_str(), "hello");
}

#[test]
fn collapsed_selection_is_empty() {
    let c = ctx(None, "say hello now", 6, 6, None);
    let r = expand_variables(&c, "%{selection}").unwrap();
    assert_eq!(r.value.as_str(), "");
}

#[test]
fn resolved_value_is_trimmed() {
    let c = ctx(None, "  hi  ", 0, 6, None);
    let r = expand_variables(&c, "[%{selection}]").unwrap();
    assert_eq!(r.value.as_str(), "[hi]");
}

#[test]
fn dirname_of_path() {
    let c = ctx(Some("/tmp/notes.txt"), "", 0, 0, None);
    let r = expand_variables(&c, "%{dirname}").unwrap();
    assert_eq!(r.value.as_str(), "/tmp");
}

#[test]
fn dirname_of_file_in_root() {
    let c = ctx(Some("/notes.txt"), "", 0, 0, None);
    let r = expand_variables(&c, "%{dirname}").unwrap();
    assert_eq!(r.value.as_str(), "/");
}

#[test]
fn dirname_of_relative_path_is_empty() {
    let c = ctx(Some("notes.txt"), "", 0, 0, None);
    let r = expand_variables(&c, "%{dirname}").unwrap();
    assert_eq!(r.value.as_str(), "");
}

#[test]
fn dirname_falls_back_to_working_dir() {
    let c = ctx(None, "", 0, 0, Some("/home/user"));
    let r = expand_variables(&c, "%{dirname}").unwrap();
    assert_eq!(r.value.as_str(), "/home/user");
}

#[test]
fn dirname_fails_without_working_dir() {
    let c = ctx(None, "", 0, 0, None);
    let r = expand_variables(&c, "%{dirname}");
    assert!(matches!(r, Err(Error::WorkingDirUnavailable)));
}

#[test]
fn basename_of_path_without_slash() {
    let c = ctx(Some("notes.txt"), "", 0, 0, None);
    let r = expand_variables(&c, "%{basename}").unwrap();
    assert_eq!(r.value.as_str(), "notes.txt");
}

#[test]
fn shell_prefix_is_consumed_and_body_scanned() {
    let c = ctx(None, "", 0, 0, None);
    let r = expand_variables(&c, "a%sh{echo}b").unwrap();
    assert_eq!(r.value.as_str(), "aecho}b");
    assert!(!r.malformed);
}

#[test]
fn several_placeholders_in_one_input() {
    let c = ctx(Some("/tmp/notes.txt"), "first\nsecond", 8, 8, None);
    let r = expand_variables(&c, "f=%{basename}:%{linenumber}").unwrap();
    assert_eq!(r.value.as_str(), "f=notes.txt:2");
}

#[test]
fn literal_text_around_placeholder_is_kept() {
    let c = ctx(Some("/tmp/notes.txt"), "", 0, 0, None);
    let r = expand_variables(&c, "open %{basename} now").unwrap();
    assert_eq!(r.value.as_str(), "open notes.txt now");
}

#[test]
fn interior_whitespace_survives_trimming() {
    let c = ctx(None, " a  b ", 0, 6, None);
    let r = expand_variables(&c, "%{selection}").unwrap();
    assert_eq!(r.value.as_str(), "a  b");
}

#[test]
fn shell_lookalike_without_brace_is_literal() {
    let c = ctx(None, "", 0, 0, None);
    let r = expand_variables(&c, "%shell").unwrap();
    assert_eq!(r.value.as_str(), "%shell");
}
