//! User input: decoding buffered console bytes into events, and the
//! adapters that walk a console as a sequence of events or keys.
use crate::console::{ConError, ConsoleRead, ConsoleWrite};
use crate::event::{
    first_key_of, lemma_event_consumed, lemma_events_of_step, lemma_first_event, parse_event,
    spec_event_and_raw, spec_event_consumed, spec_events_of, spec_parse_event, Event, EventView,
    Key, KeyCode,
};
use crate::source::ByteSource;
use vstd::prelude::*;
use vstd::utf8::encode_utf8;

verus! {

/// The value of an optional event-and-raw pair.
pub open spec fn opt_pair_view(r: Option<(Event, Vec<u8>)>) -> Option<(EventView, Seq<u8>)> {
    match r {
        Some(p) => Some((p.0@, p.1@)),
        None => None,
    }
}

/// Decode the next input event from `source` and also return the exact
/// bytes that produced it, so a caller can re-emit or log the stream
/// unchanged.  `None` is end of input; a lone escape byte at the end of the
/// buffer is the escape key itself, since no sequence can follow it.
pub fn event_and_raw(source: &mut ByteSource) -> (r: Option<(Event, Vec<u8>)>)
    requires
        old(source).wf(),
    ensures
        final(source).wf(),
        final(source).data@ == old(source).data@,
        final(source).pos == old(source).pos + spec_event_consumed(old(source).remaining()),
        opt_pair_view(r) == spec_event_and_raw(old(source).remaining()),
{
    let ghost rest = old(source).remaining();
    let start = source.pos;
    let first = source.next();
    let item = match first {
        Some(b) => b,
        None => {
            return None;
        },
    };
    if source.remaining_len() == 0 && item == 0x1b {
        let mut raw: Vec<u8> = Vec::new();
        raw.push(0x1b);
        proof {
            assert(raw@ =~= seq![0x1bu8]);
        }
        return Some((Event::Key(Key::new(KeyCode::Esc)), raw));
    }
    proof {
        assert(source.remaining() =~= rest.skip(1));
    }
    let ev = parse_event(item, source);
    proof {
        lemma_event_consumed(item, rest.skip(1));
    }
    let raw = source.copy_range(start, source.pos);
    proof {
        let n = spec_parse_event(item, rest.skip(1)).1;
        assert(raw@ =~= seq![item] + rest.skip(1).take(n));
    }
    Some((ev, raw))
}

impl ConsoleRead for ByteSource {
    /// The unconsumed bytes of the buffer.  (A cursor past the end, which
    /// this API never produces, holds nothing.)
    open spec fn stream(&self) -> Seq<u8> {
        if self.wf() {
            self.remaining()
        } else {
            Seq::empty()
        }
    }

    /// Buffered bytes ignore the timeout: whatever the buffer holds is
    /// ready, and a drained buffer is end of input.
    fn get_event_and_raw(&mut self, timeout_ms: Option<u64>) -> Option<
        Result<(Event, Vec<u8>), ConError>,
    > {
        if self.pos > self.data.len() {
            return None;
        }
        let ghost rest = self.remaining();
        let r = event_and_raw(self);
        proof {
            if rest.len() > 0 {
                if !(rest.len() == 1 && rest[0] == 0x1b) {
                    lemma_event_consumed(rest[0], rest.skip(1));
                }
                let c = spec_event_consumed(rest);
                assert(1 <= c <= rest.len());
                assert(self.remaining() =~= rest.skip(c));
            }
        }
        match r {
            Some(p) => Some(Ok(p)),
            None => None,
        }
    }

    fn poll(&mut self, timeout_ms: Option<u64>) -> bool {
        self.pos < self.data.len()
    }

    fn read_timeout(&mut self, max: usize, timeout_ms: Option<u64>) -> Result<Vec<u8>, ConError> {
        if self.pos > self.data.len() {
            return Ok(Vec::new());
        }
        let ghost s0 = self.stream();
        let avail = self.data.len() - self.pos;
        let step = if max < avail {
            max
        } else {
            avail
        };
        let out = self.copy_range(self.pos, self.pos + step);
        self.pos = self.pos + step;
        proof {
            assert(out@ =~= s0.take(step as int));
            assert(self.remaining() =~= s0.skip(step as int));
        }
        Ok(out)
    }
}

/// An iterator-like walk over input events paired with their raw bytes;
/// each call to [`EventsAndRaw::next`] is one decode.
pub struct EventsAndRaw<R> {
    inner: R,
}

impl<R: ConsoleRead> EventsAndRaw<R> {
    /// The undecoded input still held by the walked reader.
    pub closed spec fn stream(&self) -> Seq<u8> {
        self.inner.stream()
    }

    /// The next event and its bytes, or `None` at end of input.
    pub fn next(&mut self) -> (r: Option<Result<(Event, Vec<u8>), ConError>>)
        ensures
            r matches Some(Ok(p)) ==> spec_event_and_raw(old(self).stream()) == Some(
                (p.0@, p.1@),
            ) && final(self).stream() == old(self).stream().skip(
                spec_event_consumed(old(self).stream()),
            ),
            (r is None) ==> old(self).stream().len() == 0,
    {
        self.inner.get_event_and_raw(None)
    }
}

/// An iterator-like walk over input events.
pub struct Events<R> {
    inner: R,
}

impl<R: ConsoleRead> Events<R> {
    /// The undecoded input still held by the walked reader.
    pub closed spec fn stream(&self) -> Seq<u8> {
        self.inner.stream()
    }

    /// The next event, or `None` at end of input.
    pub fn next(&mut self) -> (r: Option<Result<Event, ConError>>)
        ensures
            r matches Some(Ok(ev)) ==> spec_events_of(old(self).stream()).len() > 0 && ev@
                == spec_events_of(old(self).stream())[0] && final(self).stream() == old(
                self,
            ).stream().skip(spec_event_consumed(old(self).stream())),
            (r is None) ==> old(self).stream().len() == 0,
    {
        self.inner.get_event()
    }
}

/// An iterator-like walk over key presses, silently discarding other
/// events.
pub struct Keys<R> {
    inner: R,
}

impl<R: ConsoleRead> Keys<R> {
    /// The undecoded input still held by the walked reader.
    pub closed spec fn stream(&self) -> Seq<u8> {
        self.inner.stream()
    }

    /// The next key, or `None` when the input ends without another key.
    pub fn next(&mut self) -> (r: Option<Result<Key, ConError>>)
        ensures
            r matches Some(Ok(k)) ==> first_key_of(spec_events_of(old(self).stream())) == Some(
                k,
            ),
            (r is None) ==> first_key_of(spec_events_of(old(self).stream())) is None,
    {
        self.inner.get_key()
    }
}

/// Extension methods every console reader gets.  Each is contracted
/// against the reader's [`ConsoleRead::stream`]: the events handed out are
/// the decode of that stream, in order.
pub trait ConsoleReadExt: Sized + ConsoleRead {
    /// Walk the input as events paired with the raw bytes that made them.
    fn events_and_raw(self) -> (r: EventsAndRaw<Self>)
        ensures
            r.stream() == self.stream(),
    ;

    /// Walk the input as events.
    fn events(self) -> (r: Events<Self>)
        ensures
            r.stream() == self.stream(),
    ;

    /// Walk the input as key presses, discarding other events.
    fn keys(self) -> (r: Keys<Self>)
        ensures
            r.stream() == self.stream(),
    ;

    /// The next input event, blocking until one is ready: the first event
    /// of the stream's decode.  `None` is end of input.
    fn get_event(&mut self) -> (r: Option<Result<Event, ConError>>)
        ensures
            r matches Some(Ok(ev)) ==> spec_events_of(old(self).stream()).len() > 0 && ev@
                == spec_events_of(old(self).stream())[0] && final(self).stream() == old(
                self,
            ).stream().skip(spec_event_consumed(old(self).stream())) && final(self).stream().len()
                < old(self).stream().len(),
            (r is None) ==> old(self).stream().len() == 0 && final(self).stream() == old(
                self,
            ).stream(),
    ;

    /// The next input event, waiting at most `timeout_ms`: the same first
    /// event of the stream's decode, except that a would-block failure may
    /// report the expiry first.  `None` is end of input.
    fn get_event_timeout(&mut self, timeout_ms: u64) -> (r: Option<Result<Event, ConError>>)
        ensures
            r matches Some(Ok(ev)) ==> spec_events_of(old(self).stream()).len() > 0 && ev@
                == spec_events_of(old(self).stream())[0] && final(self).stream() == old(
                self,
            ).stream().skip(spec_event_consumed(old(self).stream())) && final(self).stream().len()
                < old(self).stream().len(),
            (r is None) ==> old(self).stream().len() == 0 && final(self).stream() == old(
                self,
            ).stream(),
    ;

    /// The next key event: the first key of the stream's decode, with
    /// every event before it (mouse or unrecognized) consumed and silently
    /// lost.  An error is passed through; `None` means the input ended
    /// without another key.
    fn get_key(&mut self) -> (r: Option<Result<Key, ConError>>)
        ensures
            r matches Some(Ok(k)) ==> first_key_of(spec_events_of(old(self).stream())) == Some(
                k,
            ),
            (r is None) ==> first_key_of(spec_events_of(old(self).stream())) is None,
    ;
}

impl<R: ConsoleRead> ConsoleReadExt for R {
    fn events_and_raw(self) -> EventsAndRaw<Self> {
        EventsAndRaw { inner: self }
    }

    fn events(self) -> Events<Self> {
        Events { inner: self }
    }

    fn keys(self) -> Keys<Self> {
        Keys { inner: self }
    }

    fn get_event(&mut self) -> Option<Result<Event, ConError>> {
        let ghost s0 = self.stream();
        let r = self.get_event_and_raw(None);
        proof {
            if s0.len() > 0 {
                lemma_first_event(s0);
            }
        }
        match r {
            Some(Ok((event, _raw))) => Some(Ok(event)),
            Some(Err(err)) => Some(Err(err)),
            None => None,
        }
    }

    fn get_event_timeout(&mut self, timeout_ms: u64) -> Option<Result<Event, ConError>> {
        let ghost s0 = self.stream();
        let r = self.get_event_and_raw(Some(timeout_ms));
        proof {
            if s0.len() > 0 {
                lemma_first_event(s0);
            }
        }
        match r {
            Some(Ok((event, _raw))) => Some(Ok(event)),
            Some(Err(err)) => Some(Err(err)),
            None => None,
        }
    }

    #[verifier::loop_isolation(false)]
    fn get_key(&mut self) -> Option<Result<Key, ConError>> {
        let ghost s0 = self.stream();
        loop
            invariant
                first_key_of(spec_events_of(self.stream())) == first_key_of(spec_events_of(s0)),
            decreases self.stream().len(),
        {
            let ghost pre = self.stream();
            match self.get_event() {
                Some(Ok(Event::Key(k))) => {
                    proof {
                        assert(spec_events_of(pre)[0] == EventView::Key(k));
                        assert(first_key_of(spec_events_of(pre)) == Some(k));
                    }
                    return Some(Ok(k));
                },
                Some(Ok(ev)) => {
                    proof {
                        let events = spec_events_of(pre);
                        assert(events[0] == ev@);
                        assert(!(ev@ is Key));
                        assert(pre.len() > 0) by {
                            if pre.len() == 0 {
                                assert(events.len() == 0);
                            }
                        }
                        assert(!(pre.len() == 1 && pre[0] == 0x1b)) by {
                            if pre.len() == 1 && pre[0] == 0x1b {
                                assert(events[0] is Key);
                            }
                        }
                        lemma_events_of_step(pre);
                        let rest_events = spec_events_of(pre.skip(spec_event_consumed(pre)));
                        assert((seq![ev@] + rest_events).drop_first() =~= rest_events);
                        assert(first_key_of(events) == first_key_of(rest_events));
                    }
                },
                Some(Err(e)) => {
                    return Some(Err(e));
                },
                None => {
                    proof {
                        assert(spec_events_of(pre) =~= Seq::<EventView>::empty());
                    }
                    return None;
                },
            }
        }
    }
}

/// The escape codes that switch terminal mouse reporting on, most specific
/// dialect last.
pub const ENTER_MOUSE_SEQUENCE: &'static str = "\x1b[?1000h\x1b[?1002h\x1b[?1015h\x1b[?1006h";

/// The escape codes that switch terminal mouse reporting off, in the
/// reverse order of [`ENTER_MOUSE_SEQUENCE`].
pub const EXIT_MOUSE_SEQUENCE: &'static str = "\x1b[?1006l\x1b[?1015l\x1b[?1002l\x1b[?1000l";

/// The bytes of [`ENTER_MOUSE_SEQUENCE`].
pub open spec fn enter_mouse_bytes() -> Seq<u8> {
    encode_utf8(ENTER_MOUSE_SEQUENCE@)
}

/// The bytes of [`EXIT_MOUSE_SEQUENCE`].
pub open spec fn exit_mouse_bytes() -> Seq<u8> {
    encode_utf8(EXIT_MOUSE_SEQUENCE@)
}

/// Switching mouse reporting on and off for a console: each call hands the
/// writer exactly the corresponding escape-code sequence.
pub trait ConsoleMouseExt: ConsoleWrite {
    /// Turn mouse support on for the console by writing
    /// [`ENTER_MOUSE_SEQUENCE`].
    fn mouse_on(&mut self) -> (r: Result<(), ConError>)
        ensures
            r is Ok ==> final(self).sink() == old(self).sink() + enter_mouse_bytes(),
    ;

    /// Turn mouse support off for the console by writing
    /// [`EXIT_MOUSE_SEQUENCE`].
    fn mouse_off(&mut self) -> (r: Result<(), ConError>)
        ensures
            r is Ok ==> final(self).sink() == old(self).sink() + exit_mouse_bytes(),
    ;
}

impl<W: ConsoleWrite> ConsoleMouseExt for W {
    fn mouse_on(&mut self) -> Result<(), ConError> {
        self.write_all(ENTER_MOUSE_SEQUENCE.as_bytes())
    }

    fn mouse_off(&mut self) -> Result<(), ConError> {
        self.write_all(EXIT_MOUSE_SEQUENCE.as_bytes())
    }
}

} // verus!
