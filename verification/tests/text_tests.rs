use log_viewer::highlight::{
    highlight_chars, highlight_keyword_pieces, highlight_search_matches, CharClass, TextStyle,
};
use log_viewer::input_element::InputTextElement;
use log_viewer::json::beatify_enclosed_json;
use log_viewer::strutil::{
    file_name_of, lex_leq_str, matches_any, pad_right, split_commas, trim_blanks,
};

#[test]
fn comma_splitting_keeps_empty_pieces() {
    assert_eq!(split_commas("foo,bar"), vec!["foo", "bar"]);
    assert_eq!(split_commas(""), vec![""]);
    assert_eq!(split_commas("a,"), vec!["a", ""]);
    assert_eq!(split_commas(",,"), vec!["", "", ""]);
}

#[test]
fn trimming_removes_edge_blanks_only() {
    assert_eq!(trim_blanks("  hello world \t"), "hello world");
    assert_eq!(trim_blanks("\r\n"), "");
    assert_eq!(trim_blanks("x"), "x");
}

#[test]
fn keyword_matching_is_case_insensitive() {
    let kws = vec!["FOO".to_string(), "bar".to_string()];
    assert!(matches_any("has Foo inside", &kws));
    assert!(matches_any("carries BARS", &kws));
    assert!(!matches_any("neither", &kws));
}

#[test]
fn lexicographic_comparison_of_timestamps() {
    assert!(lex_leq_str("2023-01-02", "2023-01-10"));
    assert!(!lex_leq_str("2023-01-10", "2023-01-02"));
    assert!(lex_leq_str("abc", "abc"));
    assert!(lex_leq_str("ab", "abc"));
}

#[test]
fn file_name_takes_the_last_path_component() {
    assert_eq!(file_name_of("/var/log/app.log"), "app.log");
    assert_eq!(file_name_of("C:\\logs\\setup.log"), "setup.log");
    assert_eq!(file_name_of("plain.log"), "plain.log");
    assert_eq!(file_name_of(""), "");
}

#[test]
fn padding_left_aligns_to_width() {
    assert_eq!(pad_right("ab", 5), "ab   ");
    assert_eq!(pad_right("abcdef", 3), "abcdef");
}

#[test]
fn input_element_edits_text_around_the_cursor() {
    let mut input = InputTextElement::new("ab".to_string());
    assert_eq!(input.cursor_position(), 1);
    input.add_char('c');
    assert_eq!(input.text(), "abc");
    assert_eq!(input.cursor_position(), 2);
    input.cursor_left();
    input.add_char('x');
    assert_eq!(input.text(), "abxc");
    input.remove_char();
    assert_eq!(input.text(), "abc");
    input.delete_char();
    assert_eq!(input.text(), "ab");
    input.clear();
    assert_eq!(input.text(), "");
    assert_eq!(input.cursor_position(), -1);
    input.remove_char();
    assert_eq!(input.text(), "");
}

#[test]
fn enclosed_json_is_prettified_in_place() {
    let line = "error payload {\"a\":1} trailing";
    let pretty = beatify_enclosed_json(line).expect("json should prettify");
    // the text from the last brace on is kept whole, so the pretty-printed
    // value's closing brace meets the one already in the line
    assert_eq!(pretty, "error payload {\n  \"a\": 1\n}} trailing");
    assert_eq!(beatify_enclosed_json("no braces here"), None);
    assert_eq!(beatify_enclosed_json("broken { not json }"), None);
}

#[test]
fn search_matches_are_cut_out_of_the_text() {
    let spans = highlight_search_matches("Hello World", "world");
    let pieces: Vec<(String, TextStyle)> = spans;
    assert_eq!(pieces.len(), 3);
    assert_eq!(pieces[0].0, "Hello ");
    assert_eq!(pieces[0].1, TextStyle::Plain);
    assert_eq!(pieces[1].0, "World");
    assert_eq!(pieces[1].1, TextStyle::Highlight);
    assert_eq!(pieces[2].0, "");
    assert_eq!(pieces[2].1, TextStyle::Plain);
    let joined: String = pieces.iter().map(|p| p.0.clone()).collect();
    assert_eq!(joined, "Hello World");
}

#[test]
fn digits_are_marked_inside_plain_pieces_only() {
    let spans = vec![
        ("a1".to_string(), TextStyle::Plain),
        ("2b".to_string(), TextStyle::Highlight),
    ];
    let out = highlight_chars(CharClass::Numeric, spans, TextStyle::Digit);
    assert_eq!(out.len(), 4);
    assert_eq!(out[0], ("a".to_string(), TextStyle::Plain));
    assert_eq!(out[1], ("1".to_string(), TextStyle::Digit));
    assert_eq!(out[2], ("".to_string(), TextStyle::Plain));
    assert_eq!(out[3], ("2b".to_string(), TextStyle::Highlight));
}

#[test]
fn keyword_pieces_split_at_line_breaks() {
    let pieces = highlight_keyword_pieces("one\ntwo", "");
    let rows: Vec<(String, TextStyle, bool)> = pieces;
    let texts: Vec<&str> = rows.iter().map(|p| p.0.as_str()).collect();
    assert!(texts.contains(&"one"));
    assert!(texts.contains(&"two"));
    let new_rows: Vec<bool> = rows.iter().map(|p| p.2).collect();
    assert!(new_rows.iter().any(|b| *b));
}
