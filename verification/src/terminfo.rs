//! The capability store: named control-sequence templates taken from the
//! terminal's description, and the small interpreter for their positional
//! placeholders.
//!
//! The store itself is a read-only table of name/bytes pairs; loading it
//! from the terminal environment's description happens outside the
//! library, which only receives the plain pairs.

use crate::text::dec_digits;
use crate::text::push_char;
use crate::text::str_eq;
use crate::text::to_decimal;
use vstd::prelude::*;
use vstd::string::StrSliceExecFns;
use vstd::utf8::decode_utf8;
use vstd::utf8::valid_utf8;

verus! {

/// The capability table: names paired with raw control strings.
pub struct TermInfo {
    pub entries: Vec<(String, Vec<u8>)>,
}

impl View for TermInfo {
    type V = Seq<(Seq<char>, Seq<u8>)>;

    open spec fn view(&self) -> Seq<(Seq<char>, Seq<u8>)> {
        self.entries@.map_values(|p: (String, Vec<u8>)| (p.0@, p.1@))
    }
}

/// The raw bytes of the first entry with this name, if any.
pub open spec fn cap_lookup(s: Seq<(Seq<char>, Seq<u8>)>, name: Seq<char>) -> Option<Seq<u8>>
    decreases s.len(),
{
    if s.len() == 0 {
        None
    } else if s[0].0 == name {
        Some(s[0].1)
    } else {
        cap_lookup(s.drop_first(), name)
    }
}

/// The capability string a name denotes: its bytes decoded as text, or
/// empty when the name is missing or its bytes are not valid text.
pub open spec fn cap_text(s: Seq<(Seq<char>, Seq<u8>)>, name: Seq<char>) -> Seq<char> {
    match cap_lookup(s, name) {
        Some(bytes) => if valid_utf8(bytes) {
            decode_utf8(bytes)
        } else {
            Seq::empty()
        },
        None => Seq::empty(),
    }
}

/// Whether the template carries the marker that asks for all numeric
/// arguments to be shifted up by one before substitution.
pub open spec fn has_increment_marker(t: Seq<char>) -> bool {
    exists|i: int| 0 <= i < t.len() - 1 && t[i] == '%' && #[trigger] t[i + 1] == 'i'
}

/// One left-to-right pass over the template: the marker is removed, and a
/// positional placeholder (percent, `p`, a digit, percent, `d`) whose
/// index names an argument is replaced by that argument in decimal.
pub open spec fn subst_scan(t: Seq<char>, args: Seq<int>) -> Seq<char>
    decreases t.len(),
{
    if t.len() == 0 {
        Seq::empty()
    } else if t.len() >= 2 && t[0] == '%' && t[1] == 'i' {
        subst_scan(t.skip(2), args)
    } else if t.len() >= 5 && t[0] == '%' && t[1] == 'p' && '1' <= t[2] && t[2] <= '9' && t[3]
        == '%' && t[4] == 'd' && (t[2] as int - '1' as int) < args.len() {
        dec_digits(args[t[2] as int - '1' as int] as nat) + subst_scan(t.skip(5), args)
    } else {
        seq![t[0]] + subst_scan(t.skip(1), args)
    }
}

/// The formatted command: arguments shifted if the template asks for it,
/// then substituted positionally.
pub open spec fn format_template(t: Seq<char>, args: Seq<int>) -> Seq<char> {
    let shifted = if has_increment_marker(t) {
        args.map_values(|a: int| a + 1)
    } else {
        args
    };
    subst_scan(t, shifted)
}

impl TermInfo {
    /// An empty capability table.
    pub fn new() -> (r: TermInfo)
        ensures
            r@.len() == 0,
    {
        TermInfo { entries: Vec::new() }
    }

    /// A table holding the given name/bytes pairs.
    pub fn from_entries(entries: Vec<(String, Vec<u8>)>) -> (r: TermInfo)
        ensures
            r.entries == entries,
            r@ == entries@.map_values(|p: (String, Vec<u8>)| (p.0@, p.1@)),
    {
        TermInfo { entries }
    }

    /// The control string registered under `command`: `None` when the
    /// name is missing or its bytes are not valid text.
    pub fn get_string(&self, command: &str) -> (r: Option<String>)
        ensures
            r is Some <==> (cap_lookup(self@, command@) is Some && valid_utf8(
                cap_lookup(self@, command@).unwrap(),
            )),
            r is Some ==> r.unwrap()@ == cap_text(self@, command@),
    {
        let n = self.entries.len();
        let mut i: usize = 0;
        proof {
            assert(self@.skip(0) =~= self@);
        }
        while i < n
            invariant
                n == self.entries@.len(),
                i <= n,
                cap_lookup(self@, command@) == cap_lookup(self@.skip(i as int), command@),
            decreases n - i,
        {
            proof {
                assert(self@.skip(i as int)[0] == self@[i as int]);
                assert(self@.skip(i as int).drop_first() =~= self@.skip(i + 1));
            }
            let hit = str_eq(self.entries[i].0.as_str(), command);
            if hit {
                return crate::text::utf8_to_string(&self.entries[i].1);
            }
            i = i + 1;
        }
        proof {
            assert(self@.skip(n as int).len() == 0);
        }
        None
    }

    /// Format a capability template with concrete arguments.
    pub fn format(s: &str, args: &[usize]) -> (r: String)
        requires
            forall|i: int| 0 <= i < args@.len() ==> #[trigger] args@[i] < usize::MAX,
        ensures
            r@ == format_template(s@, args@.map_values(|a: usize| a as int)),
    {
        let ghost gargs = args@.map_values(|a: usize| a as int);
        let marker = find_increment_marker(s);
        let mut shifted: Vec<usize> = Vec::new();
        let mut i: usize = 0;
        while i < args.len()
            invariant
                marker == has_increment_marker(s@),
                i <= args@.len(),
                forall|j: int| 0 <= j < args@.len() ==> #[trigger] args@[j] < usize::MAX,
                shifted@.len() == i,
                forall|j: int|
                    0 <= j < i ==> #[trigger] shifted@[j] == if marker {
                        args@[j] + 1
                    } else {
                        args@[j] as int
                    },
            decreases args@.len() - i,
        {
            if marker {
                shifted.push(args[i] + 1);
            } else {
                shifted.push(args[i]);
            }
            i = i + 1;
        }
        let ghost sargs = if has_increment_marker(s@) {
            gargs.map_values(|a: int| a + 1)
        } else {
            gargs
        };
        proof {
            assert(shifted@.map_values(|a: usize| a as int) =~= sargs);
        }
        subst_exec(s, &shifted)
    }
}

/// Whether the template holds the shift marker anywhere.
fn find_increment_marker(s: &str) -> (r: bool)
    ensures
        r == has_increment_marker(s@),
{
    let n = s.unicode_len();
    if n < 2 {
        proof {
            assert(!has_increment_marker(s@));
        }
        return false;
    }
    let mut i: usize = 0;
    while i < n - 1
        invariant
            n == s@.len(),
            n >= 2,
            i <= n - 1,
            forall|j: int| 0 <= j < i ==> !(s@[j] == '%' && #[trigger] s@[j + 1] == 'i'),
        decreases n - i,
    {
        let a = s.get_char(i);
        let b = s.get_char(i + 1);
        if a == '%' && b == 'i' {
            return true;
        }
        i = i + 1;
    }
    false
}

/// One pass over the template, substituting placeholders with the already
/// shifted arguments.
fn subst_exec(s: &str, args: &Vec<usize>) -> (r: String)
    ensures
        r@ == subst_scan(s@, args@.map_values(|a: usize| a as int)),
{
    let ghost gargs = args@.map_values(|a: usize| a as int);
    let n = s.unicode_len();
    let mut out = String::new();
    let mut i: usize = 0;
    proof {
        assert(s@.skip(0) =~= s@);
        assert(Seq::<char>::empty() + subst_scan(s@, gargs) =~= subst_scan(s@, gargs));
    }
    while i < n
        invariant
            gargs == args@.map_values(|a: usize| a as int),
            n == s@.len(),
            i <= n,
            subst_scan(s@, gargs) == out@ + subst_scan(s@.skip(i as int), gargs),
        decreases n - i,
    {
        let ghost rest = s@.skip(i as int);
        proof {
            assert(rest[0] == s@[i as int]);
            if i + 1 < n {
                assert(rest[1] == s@[i + 1]);
            }
        }
        let c0 = s.get_char(i);
        if c0 == '%' && i + 1 < n {
            let c1 = s.get_char(i + 1);
            if c1 == 'i' {
                proof {
                    assert(rest.skip(2) =~= s@.skip(i + 2));
                }
                i = i + 2;
                continue ;
            }
            if c1 == 'p' && n - i > 4 {
                let c2 = s.get_char(i + 2);
                let c3 = s.get_char(i + 3);
                let c4 = s.get_char(i + 4);
                proof {
                    assert(rest[2] == s@[i + 2]);
                    assert(rest[3] == s@[i + 3]);
                    assert(rest[4] == s@[i + 4]);
                }
                if '1' <= c2 && c2 <= '9' && c3 == '%' && c4 == 'd' {
                    let idx = (c2 as u8 - 0x31) as usize;
                    if idx < args.len() {
                        proof {
                            assert(idx == c2 as int - '1' as int);
                            assert(gargs[idx as int] == args@[idx as int] as int);
                            assert(rest.skip(5) =~= s@.skip(i + 5));
                        }
                        let d = to_decimal(args[idx]);
                        out.append(d.as_str());
                        i = i + 5;
                        continue ;
                    }
                }
            }
        }
        proof {
            assert(rest.skip(1) =~= s@.skip(i + 1));
            assert(out@.push(s@[i as int]) =~= out@ + seq![s@[i as int]]);
        }
        push_char(&mut out, c0);
        i = i + 1;
    }
    proof {
        assert(s@.skip(n as int).len() == 0);
        assert(subst_scan(s@.skip(n as int), gargs) =~= Seq::<char>::empty());
        assert(out@ + Seq::<char>::empty() =~= out@);
    }
    out
}

} // verus!
