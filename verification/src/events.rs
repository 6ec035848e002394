//! Typed terminal input events.
//!
//! A decoded key press is an `Input`, optionally wrapped as `Raw`, `Ctrl`,
//! `Meta` or `Shift`; the event stream also carries decoder timeouts and
//! terminal resizes.

use crate::text::dec_digits;
use crate::text::parse_u8_or_zero;
use crate::text::spec_parse_u8;
use crate::text::str_eq;
use crate::text::to_decimal;
use vstd::prelude::*;
use vstd::string::StrSliceExecFns;
use vstd::string::StringExecFns;

verus! {

/// A direction of an arrow, page or scroll key.
#[derive(Clone, Copy, Debug, PartialEq, Eq, Structural)]
pub enum Direction {
    Up,
    Down,
    Left,
    Right,
}

/// A decoded key.
#[derive(Debug)]
pub enum Input {
    /// Literal text that is not a recognized key sequence.
    Chars(String),
    /// A function key by its number.
    Function(u8),
    Arrow(Direction),
    Scroll(Direction),
    Page(Direction),
    Return,
    Enter,
    Tab,
    BackSpace,
    Delete,
    Escape,
    Home,
    End,
}

/// One event of the application-visible stream.
#[derive(Debug)]
pub enum Event {
    /// A key with no modifier.
    Raw(Input),
    Ctrl(Input),
    Meta(Input),
    Shift(Input),
    /// The decoder saw no input for its idle timeout.
    TimeOut,
    /// The terminal was resized to the given width and height.
    TermSize(usize, usize),
}

/// The error of parsing a key name that names nothing.
#[derive(Clone, Copy, Debug, PartialEq, Eq, Structural)]
pub enum ParseError {
    UnknownName,
}

/// The direction a name denotes, if any.
pub open spec fn direction_of(t: Seq<char>) -> Option<Direction> {
    if t == "up"@ {
        Some(Direction::Up)
    } else if t == "down"@ {
        Some(Direction::Down)
    } else if t == "left"@ {
        Some(Direction::Left)
    } else if t == "right"@ {
        Some(Direction::Right)
    } else {
        None
    }
}

pub open spec fn direction_text(d: Direction) -> Seq<char> {
    match d {
        Direction::Up => "up"@,
        Direction::Down => "down"@,
        Direction::Left => "left"@,
        Direction::Right => "right"@,
    }
}

/// The input a key name denotes.  Any name that is no registered key and
/// no function key reads as literal text.
pub open spec fn input_denotes(i: Input, t: Seq<char>) -> bool {
    if t == "return"@ {
        i == Input::Return
    } else if t == "enter"@ {
        i == Input::Enter
    } else if t == "tab"@ {
        i == Input::Tab
    } else if t == "backspace"@ {
        i == Input::BackSpace
    } else if t == "delete"@ {
        i == Input::Delete
    } else if t == "escape"@ {
        i == Input::Escape
    } else if t == "home"@ {
        i == Input::Home
    } else if t == "end"@ {
        i == Input::End
    } else if t == "pageup"@ {
        i == Input::Page(Direction::Up)
    } else if t == "pagedown"@ {
        i == Input::Page(Direction::Down)
    } else if t == "scrollup"@ {
        i == Input::Scroll(Direction::Up)
    } else if t == "scrolldown"@ {
        i == Input::Scroll(Direction::Down)
    } else if direction_of(t) is Some {
        i == Input::Arrow(direction_of(t).unwrap())
    } else if t.len() > 1 && t[0] == 'f' {
        i == Input::Function(spec_parse_u8(t.skip(1)) as u8)
    } else {
        i matches Input::Chars(cs) && cs@ == t
    }
}

/// The event a name denotes: a modifier prefix selects the wrapper, the
/// rest names the input.
pub open spec fn event_denotes(e: Event, t: Seq<char>) -> bool {
    if t.len() >= 5 && t.subrange(0, 5) == "ctrl+"@ {
        e matches Event::Ctrl(i) && input_denotes(i, t.skip(5))
    } else if t.len() >= 5 && t.subrange(0, 5) == "meta+"@ {
        e matches Event::Meta(i) && input_denotes(i, t.skip(5))
    } else if t.len() >= 6 && t.subrange(0, 6) == "shift+"@ {
        e matches Event::Shift(i) && input_denotes(i, t.skip(6))
    } else {
        e matches Event::Raw(i) && input_denotes(i, t)
    }
}

pub open spec fn input_text(i: Input) -> Seq<char> {
    match i {
        Input::Chars(s) => s@,
        Input::Function(n) => seq!['f'] + dec_digits(n as nat),
        Input::Arrow(d) => direction_text(d),
        Input::Scroll(d) => "scroll"@ + direction_text(d),
        Input::Page(d) => "page"@ + direction_text(d),
        Input::Return => "return"@,
        Input::Enter => "enter"@,
        Input::Tab => "tab"@,
        Input::BackSpace => "backspace"@,
        Input::Delete => "delete"@,
        Input::Escape => "escape"@,
        Input::Home => "home"@,
        Input::End => "end"@,
    }
}

pub open spec fn event_text(e: Event) -> Seq<char> {
    match e {
        Event::Raw(i) => input_text(i),
        Event::Ctrl(i) => "ctrl+"@ + input_text(i),
        Event::Meta(i) => "meta+"@ + input_text(i),
        Event::Shift(i) => "shift+"@ + input_text(i),
        Event::TimeOut => "timeout"@,
        Event::TermSize(x, y) => seq!['('] + dec_digits(x as nat) + seq![','] + dec_digits(y as nat)
            + seq![')'],
    }
}

impl Direction {
    /// Parse a direction name.
    pub fn from_str(s: &str) -> (r: Result<Direction, ParseError>)
        ensures
            r is Ok <==> direction_of(s@) is Some,
            r is Ok ==> r.unwrap() == direction_of(s@).unwrap(),
    {
        if str_eq(s, "up") {
            Ok(Direction::Up)
        } else if str_eq(s, "down") {
            Ok(Direction::Down)
        } else if str_eq(s, "left") {
            Ok(Direction::Left)
        } else if str_eq(s, "right") {
            Ok(Direction::Right)
        } else {
            Err(ParseError::UnknownName)
        }
    }

    /// The direction's name.
    pub fn to_text(&self) -> (r: String)
        ensures
            r@ == direction_text(*self),
    {
        match self {
            Direction::Up => String::from_str("up"),
            Direction::Down => String::from_str("down"),
            Direction::Left => String::from_str("left"),
            Direction::Right => String::from_str("right"),
        }
    }
}

impl Input {
    /// Parse a key name; a name that names no key reads as literal text,
    /// so this never fails.
    pub fn from_str(s: &str) -> (r: Result<Input, ParseError>)
        ensures
            r is Ok,
            input_denotes(r.unwrap(), s@),
    {
        if str_eq(s, "return") {
            Ok(Input::Return)
        } else if str_eq(s, "enter") {
            Ok(Input::Enter)
        } else if str_eq(s, "tab") {
            Ok(Input::Tab)
        } else if str_eq(s, "backspace") {
            Ok(Input::BackSpace)
        } else if str_eq(s, "delete") {
            Ok(Input::Delete)
        } else if str_eq(s, "escape") {
            Ok(Input::Escape)
        } else if str_eq(s, "home") {
            Ok(Input::Home)
        } else if str_eq(s, "end") {
            Ok(Input::End)
        } else if str_eq(s, "pageup") {
            Ok(Input::Page(Direction::Up))
        } else if str_eq(s, "pagedown") {
            Ok(Input::Page(Direction::Down))
        } else if str_eq(s, "scrollup") {
            Ok(Input::Scroll(Direction::Up))
        } else if str_eq(s, "scrolldown") {
            Ok(Input::Scroll(Direction::Down))
        } else {
            match Direction::from_str(s) {
                Ok(d) => Ok(Input::Arrow(d)),
                Err(_) => {
                    let n = s.unicode_len();
                    if n > 1 && s.get_char(0) == 'f' {
                        let tail = s.substring_char(1, n);
                        proof {
                            assert(tail@ =~= s@.skip(1));
                        }
                        Ok(Input::Function(parse_u8_or_zero(tail)))
                    } else {
                        Ok(Input::Chars(s.to_owned()))
                    }
                },
            }
        }
    }

    /// The key's name.
    pub fn to_text(&self) -> (r: String)
        ensures
            r@ == input_text(*self),
    {
        match self {
            Input::Chars(s) => s.clone(),
            Input::Function(n) => {
                let mut out = String::from_str("f");
                let d = to_decimal(*n as usize);
                out.append(d.as_str());
                proof {
                    reveal_strlit("f");
                    assert("f"@ =~= seq!['f']);
                }
                out
            },
            Input::Arrow(d) => d.to_text(),
            Input::Scroll(d) => {
                let mut out = String::from_str("scroll");
                let t = d.to_text();
                out.append(t.as_str());
                out
            },
            Input::Page(d) => {
                let mut out = String::from_str("page");
                let t = d.to_text();
                out.append(t.as_str());
                out
            },
            Input::Return => String::from_str("return"),
            Input::Enter => String::from_str("enter"),
            Input::Tab => String::from_str("tab"),
            Input::BackSpace => String::from_str("backspace"),
            Input::Delete => String::from_str("delete"),
            Input::Escape => String::from_str("escape"),
            Input::Home => String::from_str("home"),
            Input::End => String::from_str("end"),
        }
    }
}

impl Event {
    /// Parse an event name: an optional modifier prefix, then the key.
    pub fn from_str(s: &str) -> (r: Result<Event, ParseError>)
        ensures
            r is Ok,
            event_denotes(r.unwrap(), s@),
    {
        let n = s.unicode_len();
        proof {
            reveal_strlit("ctrl+");
            reveal_strlit("meta+");
            reveal_strlit("shift+");
        }
        if n >= 5 && str_eq(s.substring_char(0, 5), "ctrl+") {
            let tail = s.substring_char(5, n);
            proof {
                assert(tail@ =~= s@.skip(5));
            }
            match Input::from_str(tail) {
                Ok(i) => Ok(Event::Ctrl(i)),
                Err(e) => Err(e),
            }
        } else if n >= 5 && str_eq(s.substring_char(0, 5), "meta+") {
            let tail = s.substring_char(5, n);
            proof {
                assert(tail@ =~= s@.skip(5));
            }
            match Input::from_str(tail) {
                Ok(i) => Ok(Event::Meta(i)),
                Err(e) => Err(e),
            }
        } else if n >= 6 && str_eq(s.substring_char(0, 6), "shift+") {
            let tail = s.substring_char(6, n);
            proof {
                assert(tail@ =~= s@.skip(6));
            }
            match Input::from_str(tail) {
                Ok(i) => Ok(Event::Shift(i)),
                Err(e) => Err(e),
            }
        } else {
            match Input::from_str(s) {
                Ok(i) => Ok(Event::Raw(i)),
                Err(e) => Err(e),
            }
        }
    }

    /// The event's name.
    pub fn to_text(&self) -> (r: String)
        ensures
            r@ == event_text(*self),
    {
        match self {
            Event::Raw(i) => i.to_text(),
            Event::Ctrl(i) => {
                let mut out = String::from_str("ctrl+");
                let t = i.to_text();
                out.append(t.as_str());
                out
            },
            Event::Meta(i) => {
                let mut out = String::from_str("meta+");
                let t = i.to_text();
                out.append(t.as_str());
                out
            },
            Event::Shift(i) => {
                let mut out = String::from_str("shift+");
                let t = i.to_text();
                out.append(t.as_str());
                out
            },
            Event::TimeOut => String::from_str("timeout"),
            Event::TermSize(x, y) => {
                let mut out = String::from_str("(");
                let dx = to_decimal(*x);
                out.append(dx.as_str());
                out.append(",");
                let dy = to_decimal(*y);
                out.append(dy.as_str());
                out.append(")");
                proof {
                    reveal_strlit("(");
                    reveal_strlit(",");
                    reveal_strlit(")");
                    assert("("@ =~= seq!['(']);
                    assert(","@ =~= seq![',']);
                    assert(")"@ =~= seq![')']);
                }
                out
            },
        }
    }
}

impl Clone for Input {
    fn clone(&self) -> (r: Input)
        ensures
            r == *self,
    {
        match self {
            Input::Chars(s) => Input::Chars(s.clone()),
            Input::Function(n) => Input::Function(*n),
            Input::Arrow(d) => Input::Arrow(*d),
            Input::Scroll(d) => Input::Scroll(*d),
            Input::Page(d) => Input::Page(*d),
            Input::Return => Input::Return,
            Input::Enter => Input::Enter,
            Input::Tab => Input::Tab,
            Input::BackSpace => Input::BackSpace,
            Input::Delete => Input::Delete,
            Input::Escape => Input::Escape,
            Input::Home => Input::Home,
            Input::End => Input::End,
        }
    }
}

impl Clone for Event {
    fn clone(&self) -> (r: Event)
        ensures
            r == *self,
    {
        match self {
            Event::Raw(i) => Event::Raw(i.clone()),
            Event::Ctrl(i) => Event::Ctrl(i.clone()),
            Event::Meta(i) => Event::Meta(i.clone()),
            Event::Shift(i) => Event::Shift(i.clone()),
            Event::TimeOut => Event::TimeOut,
            Event::TermSize(w, h) => Event::TermSize(*w, *h),
        }
    }
}

impl PartialEq for Input {
    fn eq(&self, o: &Input) -> (r: bool) {
        match (self, o) {
            (Input::Chars(a), Input::Chars(b)) => *a == *b,
            (Input::Function(a), Input::Function(b)) => *a == *b,
            (Input::Arrow(a), Input::Arrow(b)) => *a == *b,
            (Input::Scroll(a), Input::Scroll(b)) => *a == *b,
            (Input::Page(a), Input::Page(b)) => *a == *b,
            (Input::Return, Input::Return) => true,
            (Input::Enter, Input::Enter) => true,
            (Input::Tab, Input::Tab) => true,
            (Input::BackSpace, Input::BackSpace) => true,
            (Input::Delete, Input::Delete) => true,
            (Input::Escape, Input::Escape) => true,
            (Input::Home, Input::Home) => true,
            (Input::End, Input::End) => true,
            _ => false,
        }
    }
}

/// What `==` means on `Input`: same variant, with text compared by
/// contents.
pub open spec fn input_eq(a: &Input, b: &Input) -> bool {
    match (a, b) {
        (Input::Chars(x), Input::Chars(y)) => x@ == y@,
        (Input::Function(x), Input::Function(y)) => x == y,
        (Input::Arrow(x), Input::Arrow(y)) => x == y,
        (Input::Scroll(x), Input::Scroll(y)) => x == y,
        (Input::Page(x), Input::Page(y)) => x == y,
        (Input::Return, Input::Return) => true,
        (Input::Enter, Input::Enter) => true,
        (Input::Tab, Input::Tab) => true,
        (Input::BackSpace, Input::BackSpace) => true,
        (Input::Delete, Input::Delete) => true,
        (Input::Escape, Input::Escape) => true,
        (Input::Home, Input::Home) => true,
        (Input::End, Input::End) => true,
        _ => false,
    }
}

impl vstd::std_specs::cmp::PartialEqSpecImpl for Input {
    open spec fn obeys_eq_spec() -> bool {
        true
    }

    open spec fn eq_spec(&self, o: &Input) -> bool {
        input_eq(self, o)
    }
}

impl PartialEq for Event {
    fn eq(&self, o: &Event) -> (r: bool) {
        match (self, o) {
            (Event::Raw(a), Event::Raw(b)) => *a == *b,
            (Event::Ctrl(a), Event::Ctrl(b)) => *a == *b,
            (Event::Meta(a), Event::Meta(b)) => *a == *b,
            (Event::Shift(a), Event::Shift(b)) => *a == *b,
            (Event::TimeOut, Event::TimeOut) => true,
            (Event::TermSize(a, b), Event::TermSize(c, d)) => *a == *c && *b == *d,
            _ => false,
        }
    }
}

impl vstd::std_specs::cmp::PartialEqSpecImpl for Event {
    open spec fn obeys_eq_spec() -> bool {
        true
    }

    open spec fn eq_spec(&self, o: &Event) -> bool {
        match (self, o) {
            (Event::Raw(a), Event::Raw(b)) => input_eq(a, b),
            (Event::Ctrl(a), Event::Ctrl(b)) => input_eq(a, b),
            (Event::Meta(a), Event::Meta(b)) => input_eq(a, b),
            (Event::Shift(a), Event::Shift(b)) => input_eq(a, b),
            (Event::TimeOut, Event::TimeOut) => true,
            (Event::TermSize(a, b), Event::TermSize(c, d)) => a == c && b == d,
            _ => false,
        }
    }
}

/// The fixed control-byte table: byte `x` below 0x20 decodes as Ctrl
/// plus the letter `x + 64`.
pub fn control_key_entries() -> (r: Vec<(Vec<u8>, Event)>)
    ensures
        r@.len() == 32,
        forall|i: int|
            0 <= i < 32 ==> (#[trigger] r@[i]).0@ == seq![i as u8] && (r@[i].1 matches Event::Ctrl(
                inp,
            ) && (inp matches Input::Chars(cs) && cs@ == seq![((i + 64) as u8) as char])),
{
    let mut out: Vec<(Vec<u8>, Event)> = Vec::new();
    let mut x: u8 = 0;
    while x < 32
        invariant
            x <= 32,
            out@.len() == x,
            forall|i: int|
                0 <= i < x ==> (#[trigger] out@[i]).0@ == seq![i as u8] && (out@[i].1
                    matches Event::Ctrl(inp) && (inp matches Input::Chars(cs) && cs@ == seq![
                    ((i + 64) as u8) as char,
                ])),
        decreases 32 - x,
    {
        let mut key: Vec<u8> = Vec::new();
        key.push(x);
        let c = (x + 64) as char;
        let ev = Event::Ctrl(Input::Chars(crate::text::char_to_string(c)));
        proof {
            assert(key@ =~= seq![x as u8]);
        }
        out.push((key, ev));
        x = x + 1;
    }
    out
}

/// The fixed default escape-sequence table: the common keys, each in its
/// raw form and, prefixed by an escape byte, in its Meta form.
pub open spec fn default_entries_spec() -> Seq<(Seq<u8>, Event)> {
    seq![
        (seq![0x1bu8, 0x5bu8, 0x41u8], Event::Raw(Input::Arrow(Direction::Up))),
        (seq![0x1bu8, 0x1bu8, 0x5bu8, 0x41u8], Event::Meta(Input::Arrow(Direction::Up))),
        (seq![0x1bu8, 0x5bu8, 0x42u8], Event::Raw(Input::Arrow(Direction::Down))),
        (seq![0x1bu8, 0x1bu8, 0x5bu8, 0x42u8], Event::Meta(Input::Arrow(Direction::Down))),
        (seq![0x1bu8, 0x5bu8, 0x44u8], Event::Raw(Input::Arrow(Direction::Left))),
        (seq![0x1bu8, 0x1bu8, 0x5bu8, 0x44u8], Event::Meta(Input::Arrow(Direction::Left))),
        (seq![0x1bu8, 0x5bu8, 0x43u8], Event::Raw(Input::Arrow(Direction::Right))),
        (seq![0x1bu8, 0x1bu8, 0x5bu8, 0x43u8], Event::Meta(Input::Arrow(Direction::Right))),
        (seq![0x1bu8, 0x5bu8, 0x48u8], Event::Raw(Input::Home)),
        (seq![0x1bu8, 0x1bu8, 0x5bu8, 0x48u8], Event::Meta(Input::Home)),
        (seq![0x1bu8, 0x5bu8, 0x46u8], Event::Raw(Input::End)),
        (seq![0x1bu8, 0x1bu8, 0x5bu8, 0x46u8], Event::Meta(Input::End)),
        (seq![0x08u8], Event::Raw(Input::BackSpace)),
        (seq![0x1bu8, 0x08u8], Event::Meta(Input::BackSpace)),
        (seq![0x09u8], Event::Raw(Input::Tab)),
        (seq![0x1bu8, 0x09u8], Event::Meta(Input::Tab)),
        (seq![0x0au8], Event::Raw(Input::Enter)),
        (seq![0x1bu8, 0x0au8], Event::Meta(Input::Enter)),
        (seq![0x0du8], Event::Raw(Input::Return)),
        (seq![0x1bu8, 0x0du8], Event::Meta(Input::Return)),
        (seq![0x1bu8], Event::Raw(Input::Escape)),
        (seq![0x1bu8, 0x1bu8], Event::Meta(Input::Escape)),
        (seq![0x7fu8], Event::Raw(Input::Delete)),
        (seq![0x1bu8, 0x7fu8], Event::Meta(Input::Delete)),
    ]
}

fn key1(a: u8) -> (r: Vec<u8>)
    ensures
        r@ == seq![a],
{
    let mut v: Vec<u8> = Vec::new();
    v.push(a);
    proof {
        assert(v@ =~= seq![a]);
    }
    v
}

fn key2(a: u8, b: u8) -> (r: Vec<u8>)
    ensures
        r@ == seq![a, b],
{
    let mut v: Vec<u8> = Vec::new();
    v.push(a);
    v.push(b);
    proof {
        assert(v@ =~= seq![a, b]);
    }
    v
}

fn key3(a: u8, b: u8, c: u8) -> (r: Vec<u8>)
    ensures
        r@ == seq![a, b, c],
{
    let mut v: Vec<u8> = Vec::new();
    v.push(a);
    v.push(b);
    v.push(c);
    proof {
        assert(v@ =~= seq![a, b, c]);
    }
    v
}

fn key4(a: u8, b: u8, c: u8, d: u8) -> (r: Vec<u8>)
    ensures
        r@ == seq![a, b, c, d],
{
    let mut v: Vec<u8> = Vec::new();
    v.push(a);
    v.push(b);
    v.push(c);
    v.push(d);
    proof {
        assert(v@ =~= seq![a, b, c, d]);
    }
    v
}

/// The default table as values.
pub fn default_key_entries() -> (r: Vec<(Vec<u8>, Event)>)
    ensures
        r@.map_values(|p: (Vec<u8>, Event)| (p.0@, p.1)) == default_entries_spec(),
{
    let mut out: Vec<(Vec<u8>, Event)> = Vec::new();
    out.push((key3(0x1b, 0x5b, 0x41), Event::Raw(Input::Arrow(Direction::Up))));
    out.push((key4(0x1b, 0x1b, 0x5b, 0x41), Event::Meta(Input::Arrow(Direction::Up))));
    out.push((key3(0x1b, 0x5b, 0x42), Event::Raw(Input::Arrow(Direction::Down))));
    out.push((key4(0x1b, 0x1b, 0x5b, 0x42), Event::Meta(Input::Arrow(Direction::Down))));
    out.push((key3(0x1b, 0x5b, 0x44), Event::Raw(Input::Arrow(Direction::Left))));
    out.push((key4(0x1b, 0x1b, 0x5b, 0x44), Event::Meta(Input::Arrow(Direction::Left))));
    out.push((key3(0x1b, 0x5b, 0x43), Event::Raw(Input::Arrow(Direction::Right))));
    out.push((key4(0x1b, 0x1b, 0x5b, 0x43), Event::Meta(Input::Arrow(Direction::Right))));
    out.push((key3(0x1b, 0x5b, 0x48), Event::Raw(Input::Home)));
    out.push((key4(0x1b, 0x1b, 0x5b, 0x48), Event::Meta(Input::Home)));
    out.push((key3(0x1b, 0x5b, 0x46), Event::Raw(Input::End)));
    out.push((key4(0x1b, 0x1b, 0x5b, 0x46), Event::Meta(Input::End)));
    out.push((key1(0x08), Event::Raw(Input::BackSpace)));
    out.push((key2(0x1b, 0x08), Event::Meta(Input::BackSpace)));
    out.push((key1(0x09), Event::Raw(Input::Tab)));
    out.push((key2(0x1b, 0x09), Event::Meta(Input::Tab)));
    out.push((key1(0x0a), Event::Raw(Input::Enter)));
    out.push((key2(0x1b, 0x0a), Event::Meta(Input::Enter)));
    out.push((key1(0x0d), Event::Raw(Input::Return)));
    out.push((key2(0x1b, 0x0d), Event::Meta(Input::Return)));
    out.push((key1(0x1b), Event::Raw(Input::Escape)));
    out.push((key2(0x1b, 0x1b), Event::Meta(Input::Escape)));
    out.push((key1(0x7f), Event::Raw(Input::Delete)));
    out.push((key2(0x1b, 0x7f), Event::Meta(Input::Delete)));
    proof {
        assert(out@.map_values(|p: (Vec<u8>, Event)| (p.0@, p.1)) =~= default_entries_spec());
    }
    out
}

/// The event a capability name stands for in the key table, if any: the
/// named cursor, editing, paging and scrolling keys, and the function
/// keys `key_f0` through `key_f63`.
pub open spec fn cap_key_event(name: Seq<char>) -> Option<Event> {
    if name == "kcuu1"@ {
        Some(Event::Raw(Input::Arrow(Direction::Up)))
    } else if name == "kcud1"@ {
        Some(Event::Raw(Input::Arrow(Direction::Down)))
    } else if name == "kcub1"@ {
        Some(Event::Raw(Input::Arrow(Direction::Left)))
    } else if name == "kcuf1"@ {
        Some(Event::Raw(Input::Arrow(Direction::Right)))
    } else if name == "dch1"@ {
        Some(Event::Raw(Input::Delete))
    } else if name == "tab"@ {
        Some(Event::Raw(Input::Tab))
    } else if name == "cr"@ {
        Some(Event::Raw(Input::Return))
    } else if name == "khome"@ {
        Some(Event::Raw(Input::Home))
    } else if name == "kend"@ {
        Some(Event::Raw(Input::End))
    } else if name == "kpp"@ {
        Some(Event::Raw(Input::Page(Direction::Up)))
    } else if name == "knp"@ {
        Some(Event::Raw(Input::Page(Direction::Down)))
    } else if name == "key_sr"@ {
        Some(Event::Raw(Input::Scroll(Direction::Up)))
    } else if name == "key_sf"@ {
        Some(Event::Raw(Input::Scroll(Direction::Down)))
    } else if name.len() > 5 && name.subrange(0, 5) == "key_f"@ && fkey_number(name.skip(5)) is Some {
        Some(Event::Raw(Input::Function(fkey_number(name.skip(5)).unwrap())))
    } else {
        None
    }
}

/// The function-key number a digit tail denotes: a plain decimal number
/// below 64 with no leading zero, as the capability names are written.
pub open spec fn fkey_number(t: Seq<char>) -> Option<u8> {
    if t.len() > 0 && crate::text::all_digits(t) && (t.len() == 1 || t[0] != '0')
        && crate::text::digits_val(t) < 64 {
        Some(crate::text::digits_val(t) as u8)
    } else {
        None
    }
}

/// The table event a capability name stands for, as a value.
pub fn cap_key_event_exec(name: &str) -> (r: Option<Event>)
    ensures
        r == cap_key_event(name@),
{
    if str_eq(name, "kcuu1") {
        Some(Event::Raw(Input::Arrow(Direction::Up)))
    } else if str_eq(name, "kcud1") {
        Some(Event::Raw(Input::Arrow(Direction::Down)))
    } else if str_eq(name, "kcub1") {
        Some(Event::Raw(Input::Arrow(Direction::Left)))
    } else if str_eq(name, "kcuf1") {
        Some(Event::Raw(Input::Arrow(Direction::Right)))
    } else if str_eq(name, "dch1") {
        Some(Event::Raw(Input::Delete))
    } else if str_eq(name, "tab") {
        Some(Event::Raw(Input::Tab))
    } else if str_eq(name, "cr") {
        Some(Event::Raw(Input::Return))
    } else if str_eq(name, "khome") {
        Some(Event::Raw(Input::Home))
    } else if str_eq(name, "kend") {
        Some(Event::Raw(Input::End))
    } else if str_eq(name, "kpp") {
        Some(Event::Raw(Input::Page(Direction::Up)))
    } else if str_eq(name, "knp") {
        Some(Event::Raw(Input::Page(Direction::Down)))
    } else if str_eq(name, "key_sr") {
        Some(Event::Raw(Input::Scroll(Direction::Up)))
    } else if str_eq(name, "key_sf") {
        Some(Event::Raw(Input::Scroll(Direction::Down)))
    } else {
        let n = name.unicode_len();
        proof {
            reveal_strlit("key_f");
        }
        if n > 5 && str_eq(name.substring_char(0, 5), "key_f") {
            let tail = name.substring_char(5, n);
            proof {
                assert(tail@ =~= name@.skip(5));
            }
            match fkey_number_exec(tail) {
                Some(v) => Some(Event::Raw(Input::Function(v))),
                None => None,
            }
        } else {
            None
        }
    }
}

/// The function-key number of a digit tail, as a value.
fn fkey_number_exec(s: &str) -> (r: Option<u8>)
    ensures
        r == fkey_number(s@),
{
    let n = s.unicode_len();
    if n == 0 {
        return None;
    }
    if n > 1 && s.get_char(0) == '0' {
        return None;
    }
    let mut val: u32 = 0;
    let mut i: usize = 0;
    while i < n
        invariant
            n == s@.len(),
            i <= n,
            crate::text::all_digits(s@.subrange(0, i as int)),
            crate::text::digits_val(s@.subrange(0, i as int)) < 64 ==> val == crate::text::digits_val(
                s@.subrange(0, i as int),
            ),
            crate::text::digits_val(s@.subrange(0, i as int)) >= 64 ==> 64 <= val <= 649,
        decreases n - i,
    {
        let c = s.get_char(i);
        if c < '0' || c > '9' {
            proof {
                assert(!('0' <= s@[i as int] && s@[i as int] <= '9'));
                assert(!crate::text::all_digits(s@));
            }
            return None;
        }
        let d: u32 = c as u32 - 0x30;
        proof {
            let p = s@.subrange(0, i + 1);
            assert(p.drop_last() =~= s@.subrange(0, i as int));
            assert(p.last() == s@[i as int]);
            crate::text::lemma_digits_val_nonneg(s@.subrange(0, i as int));
        }
        if val >= 64 {
            val = 64;
        } else {
            val = val * 10 + d;
        }
        i = i + 1;
    }
    proof {
        assert(s@.subrange(0, n as int) =~= s@);
    }
    if val < 64 {
        Some(val as u8)
    } else {
        None
    }
}

} // verus!
