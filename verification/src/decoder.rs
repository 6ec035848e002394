//! The byte decoder: a state machine that turns the raw byte stream into
//! events despite variable-length, prefix-ambiguous escape sequences.
//!
//! The decoder owns an accumulation buffer.  Each incoming byte either
//! completes a registered sequence (emitting its event at once when no
//! longer sequence could still arrive), or leaves the decoder waiting on
//! the short disambiguation timeout.  A timeout with a non-empty buffer
//! flushes it: as the registered event on an exact match, as literal text
//! if the bytes are valid UTF-8, and as a fatal decoding fault otherwise.
//! The loop that waits on the byte channel and applies these timeouts
//! lives outside the library; it only performs what the returned step
//! says.

use crate::events::Event;
use crate::events::Input;
use crate::pattern::prefix_ext;
use crate::pattern::PatternTable;
use crate::text::utf8_to_string;
use vstd::prelude::*;
use vstd::utf8::decode_utf8;
use vstd::utf8::valid_utf8;

verus! {

/// Which timeout the decoder should wait on next.
#[derive(Clone, Copy, Debug, PartialEq, Eq, Structural)]
pub enum Tier {
    /// The long timeout between gestures.
    Idle,
    /// The short timeout that resolves a prefix ambiguity.
    Disambiguate,
}

/// What the caller must do after handing the decoder a byte or a timeout.
#[derive(Clone, Debug)]
pub enum DecodeStep {
    /// Wait for the next byte under the given timeout.
    Pending(Tier),
    /// Deliver this event, then wait under the idle timeout.
    Emit(Event),
    /// The buffer matches no pattern and is not valid text: the decoder
    /// stops and its output closes.
    Fail,
}

/// One byte's effect on the accumulation buffer: the new buffer and the
/// emitted event, if any.
pub open spec fn byte_step(m: Map<Seq<u8>, Event>, buf: Seq<u8>, b: u8) -> (Seq<u8>, Option<Event>) {
    let nb = buf.push(b);
    if m.contains_key(nb) {
        if prefix_ext(m, nb) {
            (nb, None)
        } else {
            (Seq::empty(), Some(m[nb]))
        }
    } else {
        (nb, None)
    }
}

pub open spec fn opt_events(o: Option<Event>) -> Seq<Event> {
    match o {
        Some(e) => seq![e],
        None => Seq::empty(),
    }
}

/// Feeding a whole byte string: the final buffer and every event emitted
/// along the way, in order.
pub open spec fn feed(m: Map<Seq<u8>, Event>, buf: Seq<u8>, bytes: Seq<u8>) -> (Seq<u8>, Seq<Event>)
    decreases bytes.len(),
{
    if bytes.len() == 0 {
        (buf, Seq::empty())
    } else {
        let fed = feed(m, buf, bytes.drop_last());
        let stepped = byte_step(m, fed.0, bytes.last());
        (stepped.0, fed.1 + opt_events(stepped.1))
    }
}

/// What a timeout flushes when the buffer is empty or an exact match:
/// nothing, or the registered event.  (A buffer that matches nothing is
/// flushed as text or fails; that case carries a decoded string and is
/// stated on `on_timeout` itself.)
pub open spec fn timeout_flush(m: Map<Seq<u8>, Event>, buf: Seq<u8>) -> Seq<Event> {
    if buf.len() > 0 && m.contains_key(buf) {
        seq![m[buf]]
    } else {
        Seq::empty()
    }
}

/// The decoder: the pattern table and the accumulation buffer.
pub struct Decoder {
    pub table: PatternTable,
    pub buf: Vec<u8>,
}

impl Decoder {
    pub fn new(table: PatternTable) -> (r: Decoder)
        ensures
            r.table == table,
            r.buf@ == Seq::<u8>::empty(),
    {
        Decoder { table, buf: Vec::new() }
    }

    /// Consume one byte.  An exact match with no longer candidate emits
    /// its event at once and resets the buffer; anything else keeps the
    /// byte and waits on the short disambiguation timeout.
    pub fn on_byte(&mut self, b: u8) -> (step: DecodeStep)
        ensures
            final (self).table == old(self).table,
            ({
                let r = byte_step(old(self).table@, old(self).buf@, b);
                &&& final (self).buf@ == r.0
                &&& step == match r.1 {
                    Some(e) => DecodeStep::Emit(e),
                    None => DecodeStep::Pending(Tier::Disambiguate),
                }
            }),
    {
        self.buf.push(b);
        match self.table.lookup(&self.buf) {
            Some(e) => {
                if self.table.has_longer_with_prefix(&self.buf) {
                    DecodeStep::Pending(Tier::Disambiguate)
                } else {
                    self.buf.clear();
                    DecodeStep::Emit(e)
                }
            },
            None => DecodeStep::Pending(Tier::Disambiguate),
        }
    }

    /// The waiting timeout elapsed.  An empty buffer keeps waiting; a
    /// buffer matching a registered sequence emits its event; other bytes
    /// are flushed as literal text when they decode as UTF-8, and
    /// anything else is a fatal decoding fault.
    pub fn on_timeout(&mut self) -> (step: DecodeStep)
        ensures
            final (self).table == old(self).table,
            old(self).buf@.len() == 0 ==> final (self).buf@ == old(self).buf@ && step
                == DecodeStep::Pending(Tier::Idle),
            old(self).buf@.len() > 0 && old(self).table@.contains_key(old(self).buf@)
                ==> final (self).buf@.len() == 0 && step == DecodeStep::Emit(
                old(self).table@[old(self).buf@],
            ),
            old(self).buf@.len() > 0 && !old(self).table@.contains_key(old(self).buf@)
                && valid_utf8(old(self).buf@) ==> final (self).buf@.len() == 0 && (match step {
                DecodeStep::Emit(e) => e matches Event::Raw(i) && (i matches Input::Chars(cs)
                    && cs@ == decode_utf8(old(self).buf@)),
                _ => false,
            }),
            old(self).buf@.len() > 0 && !old(self).table@.contains_key(old(self).buf@)
                && !valid_utf8(old(self).buf@) ==> final (self).buf@ == old(self).buf@ && step
                == DecodeStep::Fail,
    {
        if self.buf.len() == 0 {
            DecodeStep::Pending(Tier::Idle)
        } else {
            match self.table.lookup(&self.buf) {
                Some(e) => {
                    self.buf.clear();
                    DecodeStep::Emit(e)
                },
                None => {
                    match utf8_to_string(&self.buf) {
                        Some(s) => {
                            self.buf.clear();
                            DecodeStep::Emit(Event::Raw(Input::Chars(s)))
                        },
                        None => DecodeStep::Fail,
                    }
                },
            }
        }
    }
}

/// While the buffer is a strict prefix of a registered sequence, the
/// decoder emits nothing and keeps every byte.
proof fn lemma_feed_strict_prefix(m: Map<Seq<u8>, Event>, k: Seq<u8>, i: int)
    requires
        m.contains_key(k),
        0 <= i < k.len(),
    ensures
        feed(m, Seq::empty(), k.subrange(0, i)) == (k.subrange(0, i), Seq::<Event>::empty()),
    decreases i,
{
    let p = k.subrange(0, i);
    if i == 0 {
        assert(p.len() == 0);
        assert(feed(m, Seq::empty(), p) == (Seq::<u8>::empty(), Seq::<Event>::empty()));
        assert(p =~= Seq::<u8>::empty());
    } else {
        lemma_feed_strict_prefix(m, k, i - 1);
        let q = k.subrange(0, i - 1);
        assert(p.drop_last() =~= q);
        assert(p.last() == k[i - 1]);
        let nb = q.push(k[i - 1]);
        assert(nb =~= p);
        if m.contains_key(p) {
            assert(k.len() > p.len() && k.subrange(0, p.len() as int) == p);
            assert(prefix_ext(m, p));
            assert(byte_step(m, q, k[i - 1]) == (p, Option::<Event>::None));
        } else {
            assert(byte_step(m, q, k[i - 1]) == (p, Option::<Event>::None));
        }
        assert(Seq::<Event>::empty() + opt_events(Option::<Event>::None) =~= Seq::<
            Event,
        >::empty());
    }
}

/// Law of complete sequences: feeding exactly the bytes of a registered
/// sequence, with nothing after them, and then letting the waiting
/// timeout elapse, yields exactly one event — the one registered for the
/// sequence — whether it is emitted on the last byte (no longer
/// candidate) or by the timeout flush (a longer candidate existed).
pub proof fn lemma_registered_sequence_decodes_once(m: Map<Seq<u8>, Event>, k: Seq<u8>)
    requires
        m.contains_key(k),
        k.len() > 0,
    ensures
        ({
            let fed = feed(m, Seq::empty(), k);
            &&& fed.1 + timeout_flush(m, fed.0) == seq![m[k]]
            &&& (fed.0 == k || fed.0 == Seq::<u8>::empty())
            &&& (fed.0.len() > 0 ==> m.contains_key(fed.0))
        }),
{
    lemma_feed_strict_prefix(m, k, k.len() - 1);
    let q = k.subrange(0, k.len() - 1);
    assert(k.drop_last() =~= q);
    assert(k.subrange(0, k.len() as int) =~= k);
    let nb = q.push(k.last());
    assert(nb =~= k);
    let fed = feed(m, Seq::empty(), k);
    if prefix_ext(m, k) {
        assert(byte_step(m, q, k.last()) == (k, Option::<Event>::None));
        assert(fed.0 == k);
        assert(fed.1 =~= Seq::<Event>::empty());
        assert(timeout_flush(m, k) == seq![m[k]]);
        assert(fed.1 + timeout_flush(m, fed.0) =~= seq![m[k]]);
    } else {
        assert(byte_step(m, q, k.last()) == (Seq::<u8>::empty(), Option::<Event>::Some(m[k])));
        assert(fed.0 =~= Seq::<u8>::empty());
        assert(fed.1 =~= seq![m[k]]);
        assert(timeout_flush(m, fed.0) =~= Seq::<Event>::empty());
        assert(fed.1 + timeout_flush(m, fed.0) =~= seq![m[k]]);
    }
}

/// Law of prefix disambiguation: when a registered sequence is a strict
/// prefix of a longer registered sequence and the longer one's bytes all
/// arrive, nothing is emitted at the ambiguity point, and the whole
/// gesture yields exactly one event — the longer sequence's — never a
/// spurious event for the prefix.
pub proof fn lemma_longer_sequence_wins(m: Map<Seq<u8>, Event>, a: Seq<u8>, b: Seq<u8>)
    requires
        m.contains_key(a),
        m.contains_key(b),
        0 < a.len() < b.len(),
        b.subrange(0, a.len() as int) == a,
    ensures
        feed(m, Seq::empty(), a) == (a, Seq::<Event>::empty()),
        ({
            let fed = feed(m, Seq::empty(), b);
            fed.1 + timeout_flush(m, fed.0) == seq![m[b]]
        }),
{
    lemma_feed_strict_prefix(m, b, a.len() as int);
    lemma_registered_sequence_decodes_once(m, b);
}

} // verus!
