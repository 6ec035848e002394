use cursormatrix::term::create_pattern_dict;
use cursormatrix::DecodeStep;
use cursormatrix::Decoder;
use cursormatrix::Direction;
use cursormatrix::Event;
use cursormatrix::Input;
use cursormatrix::TermInfo;
use cursormatrix::Tier;

fn default_decoder() -> Decoder {
    Decoder::new(create_pattern_dict(&TermInfo::new()))
}

fn expect_pending(step: DecodeStep, tier: Tier) {
    match step {
        DecodeStep::Pending(t) => assert_eq!(t, tier),
        _ => panic!("expected to keep waiting"),
    }
}

fn expect_emit(step: DecodeStep, want: Event) {
    match step {
        DecodeStep::Emit(e) => assert_eq!(e, want),
        _ => panic!("expected an event"),
    }
}

#[test]
fn test_arrow_sequence_decodes_once() {
    // the exact bytes of a registered sequence, then nothing more:
    // exactly one Arrow(Up) event
    let mut d = default_decoder();
    expect_pending(d.on_byte(0x1b), Tier::Disambiguate);
    expect_pending(d.on_byte(0x5b), Tier::Disambiguate);
    expect_emit(d.on_byte(0x41), Event::Raw(Input::Arrow(Direction::Up)));
    expect_pending(d.on_timeout(), Tier::Idle);
}

#[test]
fn test_prefix_waits_for_longer_sequence() {
    // a bare escape matches a registered sequence, but longer sequences
    // extend it: nothing is emitted until the timeout decides
    let mut d = default_decoder();
    expect_pending(d.on_byte(0x1b), Tier::Disambiguate);
    let step = d.on_timeout();
    expect_emit(step, Event::Raw(Input::Escape));
}

#[test]
fn test_longer_sequence_wins_over_prefix() {
    // escape is a prefix of meta-escape; feeding both bytes within the
    // disambiguation window yields only the longer sequence's event
    let mut d = default_decoder();
    expect_pending(d.on_byte(0x1b), Tier::Disambiguate);
    expect_pending(d.on_byte(0x1b), Tier::Disambiguate);
    expect_emit(d.on_timeout(), Event::Meta(Input::Escape));
    expect_pending(d.on_timeout(), Tier::Idle);
}

#[test]
fn test_control_byte_decodes() {
    let mut d = default_decoder();
    let step = d.on_byte(0x01);
    expect_emit(step, Event::Ctrl(Input::Chars("A".to_owned())));
}

#[test]
fn test_plain_text_flushes_on_timeout() {
    let mut d = default_decoder();
    expect_pending(d.on_byte(0x68), Tier::Disambiguate);
    expect_emit(d.on_timeout(), Event::Raw(Input::Chars("h".to_owned())));
}

#[test]
fn test_invalid_bytes_are_fatal() {
    let mut d = default_decoder();
    let _ = d.on_byte(0xff);
    match d.on_timeout() {
        DecodeStep::Fail => {},
        _ => panic!("expected the decoder to stop"),
    }
}

#[test]
fn test_capability_sequences_override_defaults() {
    // a terminfo-derived binding for the same bytes wins over the
    // default table
    let mut caps = TermInfo::new();
    caps.entries.push(("kcud1".to_owned(), vec![0x1b, 0x5b, 0x41]));
    let mut d = Decoder::new(create_pattern_dict(&caps));
    let _ = d.on_byte(0x1b);
    let _ = d.on_byte(0x5b);
    expect_emit(d.on_byte(0x41), Event::Raw(Input::Arrow(Direction::Down)));
}

#[test]
fn test_function_key_capability() {
    let mut caps = TermInfo::new();
    caps.entries.push(("key_f7".to_owned(), vec![0x1b, 0x4f, 0x51]));
    let mut d = Decoder::new(create_pattern_dict(&caps));
    let _ = d.on_byte(0x1b);
    let _ = d.on_byte(0x4f);
    expect_emit(d.on_byte(0x51), Event::Raw(Input::Function(7)));
}
