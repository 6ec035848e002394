use cursormatrix::Direction;
use cursormatrix::Event;
use cursormatrix::Input;

#[test]
fn test_deserialize_event() {
    let ctrl_s = Event::from_str("ctrl+s").unwrap();
    assert_eq!(ctrl_s, Event::Ctrl(Input::Chars("s".to_owned())));
    let meta_up = Event::from_str("meta+up").unwrap();
    assert_eq!(meta_up, Event::Meta(Input::Arrow(Direction::Up)));
}

#[test]
fn test_parse_named_keys() {
    assert_eq!(Input::from_str("return").unwrap(), Input::Return);
    assert_eq!(Input::from_str("enter").unwrap(), Input::Enter);
    assert_eq!(Input::from_str("tab").unwrap(), Input::Tab);
    assert_eq!(Input::from_str("backspace").unwrap(), Input::BackSpace);
    assert_eq!(Input::from_str("delete").unwrap(), Input::Delete);
    assert_eq!(Input::from_str("escape").unwrap(), Input::Escape);
    assert_eq!(Input::from_str("home").unwrap(), Input::Home);
    assert_eq!(Input::from_str("end").unwrap(), Input::End);
    assert_eq!(Input::from_str("pageup").unwrap(), Input::Page(Direction::Up));
    assert_eq!(Input::from_str("scrolldown").unwrap(), Input::Scroll(Direction::Down));
}

#[test]
fn test_parse_function_keys() {
    assert_eq!(Input::from_str("f12").unwrap(), Input::Function(12));
    assert_eq!(Input::from_str("f0").unwrap(), Input::Function(0));
    // the optional plus sign a standard number parse accepts
    assert_eq!(Input::from_str("f+12").unwrap(), Input::Function(12));
    // not a number in byte range: the index reads as zero
    assert_eq!(Input::from_str("f999").unwrap(), Input::Function(0));
    assert_eq!(Input::from_str("fx").unwrap(), Input::Function(0));
    assert_eq!(Input::from_str("f+").unwrap(), Input::Function(0));
}

#[test]
fn test_parse_text_fallback() {
    assert_eq!(Input::from_str("hello").unwrap(), Input::Chars("hello".to_owned()));
    assert_eq!(Event::from_str("shift+left").unwrap(), Event::Shift(Input::Arrow(Direction::Left)));
    assert_eq!(Event::from_str("x").unwrap(), Event::Raw(Input::Chars("x".to_owned())));
}

#[test]
fn test_parse_direction_error() {
    assert!(Direction::from_str("up").is_ok());
    assert!(Direction::from_str("sideways").is_err());
}

#[test]
fn test_event_text() {
    assert_eq!(Event::Ctrl(Input::Chars("s".to_owned())).to_text(), "ctrl+s");
    assert_eq!(Event::Meta(Input::Arrow(Direction::Up)).to_text(), "meta+up");
    assert_eq!(Event::Shift(Input::Page(Direction::Down)).to_text(), "shift+pagedown");
    assert_eq!(Event::Raw(Input::Function(10)).to_text(), "f10");
    assert_eq!(Event::TimeOut.to_text(), "timeout");
    assert_eq!(Event::TermSize(120, 48).to_text(), "(120,48)");
    assert_eq!(Input::Scroll(Direction::Up).to_text(), "scrollup");
}

#[test]
fn test_event_round_trip() {
    let names = ["ctrl+s", "meta+up", "shift+pagedown", "f10", "return", "escape", "abc"];
    for name in names.iter() {
        let e = Event::from_str(name).unwrap();
        assert_eq!(e.to_text(), *name);
    }
}

#[test]
fn test_parse_empty_name() {
    assert_eq!(Input::from_str("").unwrap(), Input::Chars(String::new()));
    assert_eq!(Event::from_str("").unwrap(), Event::Raw(Input::Chars(String::new())));
}
