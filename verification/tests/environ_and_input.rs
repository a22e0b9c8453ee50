use rustgi::environ::{Environ, EnvironValue};
use rustgi::input::BytesIo;

fn text(environ: &Environ, key: &str) -> Option<String> {
    match environ.get_item(key) {
        Some(EnvironValue::Text(text)) => Some(text.clone()),
        _ => None,
    }
}

#[test]
fn reading_a_variable_gives_what_was_set_last() {
    let mut environ = Environ::new();
    environ.set_text("A", "1");
    environ.set_text("B", "2");
    environ.set_text("A", "3");
    assert_eq!(text(&environ, "A"), Some("3".to_string()));
    assert_eq!(text(&environ, "B"), Some("2".to_string()));
    assert!(environ.get_item("C").is_none());
}

#[test]
fn a_variable_occurs_once_and_keeps_its_place() {
    let mut environ = Environ::new();
    environ.set_text("A", "1");
    environ.set_item("B", EnvironValue::Number(80));
    environ.set_item("A", EnvironValue::Flag(true));
    let names: Vec<&str> = environ.entries().iter().map(|e| e.0.as_str()).collect();
    assert_eq!(names, vec!["A", "B"]);
    assert!(matches!(environ.get_item("A"), Some(EnvironValue::Flag(true))));
    assert!(matches!(environ.get_item("B"), Some(EnvironValue::Number(80))));
}

#[test]
fn writes_at_the_end_append() {
    let mut input = BytesIo::new();
    input.write(b"hello ");
    input.write(b"world");
    assert_eq!(input.getvalue(), b"hello world");
    assert_eq!(input.tell(), 11);
    input.rewind();
    assert_eq!(input.tell(), 0);
    assert_eq!(input.getvalue(), b"hello world");
}

#[test]
fn writes_elsewhere_replace_and_fill_with_zeros() {
    let mut input = BytesIo::with_position(b"abcdef".to_vec(), 2);
    input.write(b"XY");
    assert_eq!(input.getvalue(), b"abXYef");
    assert_eq!(input.tell(), 4);
    let mut input = BytesIo::with_position(b"ab".to_vec(), 4);
    input.write(b"");
    assert_eq!(input.getvalue(), b"ab");
    assert_eq!(input.tell(), 4);
    input.write(b"Z");
    assert_eq!(input.getvalue(), b"ab\0\0Z");
    assert_eq!(input.tell(), 5);
}

#[test]
fn the_input_of_an_environment_is_written_in_place() {
    let mut environ = Environ::new();
    assert_eq!(environ.input_position(), None);
    environ.set_item("wsgi.input", EnvironValue::Input(BytesIo::new()));
    environ.set_text("X", "y");
    environ.write_input(b"abc");
    assert_eq!(environ.input_position(), Some(3));
    environ.write_input(b"de");
    environ.rewind_input();
    assert_eq!(environ.input_position(), Some(0));
    match environ.get_item("wsgi.input") {
        Some(EnvironValue::Input(input)) => assert_eq!(input.getvalue(), b"abcde"),
        _ => panic!("no input"),
    }
    assert_eq!(text(&environ, "X"), Some("y".to_string()));
}
