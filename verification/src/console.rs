//! The state logic of the console device: error conditions, the read/write
//! traits that console handles implement, and the decision rules for
//! non-blocking reads and raw-mode switching.
//!
//! The console itself is a process-wide resource owned by the embedding
//! program; what lives here is everything about it that can be decided
//! without touching the device: which action a read should take in the
//! current mode, how the pending read timeout evolves, and when a raw-mode
//! switch is a no-op, succeeds, or must fail rather than deadlock.
use crate::event::{spec_event_and_raw, spec_event_consumed, Event};
use vstd::prelude::*;

verus! {

/// A failure condition of a console operation.
#[derive(Debug, Copy, Clone, PartialEq, Eq, Structural)]
pub enum ConError {
    /// No data (or no lock) was available without blocking; retry later.
    WouldBlock,
    /// A bounded wait expired before data arrived.
    TimedOut,
    /// The byte stream ended in the middle of an exchange.
    UnexpectedEof,
    /// A reply from the terminal could not be parsed.
    ParseFailed,
    /// No console device is available to this process.
    NoConsole,
}

/// Console output: something escape sequences can be written to, which also
/// controls the terminal's raw mode, since terminal mode is conventionally
/// switched from the output side.  The bytes accepted so far are modelled
/// by [`ConsoleWrite::sink`], so a caller can state exactly what reached
/// the device.
pub trait ConsoleWrite {
    /// Everything this writer has accepted, in order.
    spec fn sink(&self) -> Seq<u8>;

    /// Write all of `buf`: on success exactly `buf` is appended to the
    /// sink.
    fn write_all(&mut self, buf: &[u8]) -> (r: Result<(), ConError>)
        ensures
            r is Ok ==> final(self).sink() == old(self).sink() + buf@,
    ;

    /// Flush buffered output to the device; the accepted bytes do not
    /// change.
    fn flush(&mut self) -> (r: Result<(), ConError>)
        ensures
            final(self).sink() == old(self).sink(),
    ;

    /// Switch raw mode on or off; a no-op when already in the requested
    /// mode.  Returns the mode that was set before the call, or
    /// [`ConError::WouldBlock`] when the input side cannot be coordinated
    /// with without blocking.  A mode switch writes no bytes.
    fn set_raw_mode(&mut self, mode: bool) -> (r: Result<bool, ConError>)
        ensures
            final(self).sink() == old(self).sink(),
    ;

    /// True while raw mode is on.
    fn is_raw_mode(&self) -> bool;
}

/// Console input: a source of decoded events and raw bytes.  The input a
/// reader holds is modelled by [`ConsoleRead::stream`], and every result
/// is contracted against the decode of that stream, so what a caller
/// receives is fixed by the bytes alone.
pub trait ConsoleRead {
    /// The undecoded input this reader holds, in the order it will be
    /// decoded.  Every delivered event consumes a non-empty prefix of it.
    spec fn stream(&self) -> Seq<u8>;

    /// The next input event together with the exact bytes that produced
    /// it: precisely one decode step of the stream.  With a timeout, a
    /// would-block failure may report its expiry instead, consuming
    /// nothing; `None` is end of input.
    fn get_event_and_raw(&mut self, timeout_ms: Option<u64>) -> (r: Option<
        Result<(Event, Vec<u8>), ConError>,
    >)
        ensures
            r matches Some(Ok(p)) ==> spec_event_and_raw(old(self).stream()) == Some(
                (p.0@, p.1@),
            ) && final(self).stream() == old(self).stream().skip(
                spec_event_consumed(old(self).stream()),
            ) && final(self).stream().len() < old(self).stream().len(),
            (r matches Some(x) && x is Err) ==> final(self).stream() == old(self).stream(),
            (r is None) ==> old(self).stream().len() == 0 && final(self).stream() == old(
                self,
            ).stream(),
    ;

    /// Wait until input is ready, or the timeout (when given) expires.
    /// Held input is always ready, and waiting consumes nothing.
    fn poll(&mut self, timeout_ms: Option<u64>) -> (r: bool)
        ensures
            final(self).stream() == old(self).stream(),
            old(self).stream().len() > 0 ==> r,
    ;

    /// Read up to `max` raw bytes: a prefix of the stream, undecoded.
    /// With a timeout, a would-block failure reports its expiry; an empty
    /// result is end of input.
    fn read_timeout(&mut self, max: usize, timeout_ms: Option<u64>) -> (r: Result<
        Vec<u8>,
        ConError,
    >)
        ensures
            r matches Ok(v) ==> v@.len() <= max && v@ == old(self).stream().take(
                v@.len() as int,
            ) && final(self).stream() == old(self).stream().skip(v@.len() as int) && ((max > 0
                && old(self).stream().len() > 0) ==> v@.len() > 0),
            (r is Err) ==> final(self).stream() == old(self).stream(),
    ;
}

/// The delay, in milliseconds, granted for the rest of an escape sequence
/// once its first bytes have arrived on a non-blocking handle.
pub const SEQUENCE_WINDOW_MS: u64 = 10;

/// The read-side state of the console: the ambient blocking mode, the
/// pending read timeout, and the one-byte lookahead that event decoding may
/// leave behind.
#[derive(Debug, Copy, Clone, PartialEq, Eq, Structural)]
pub struct ConsoleInState {
    /// Whether reads block until data arrives.
    pub blocking: bool,
    /// A timeout bounding the next read, when one is pending.
    pub read_timeout_ms: Option<u64>,
    /// A byte read from the device but not yet consumed by decoding.  It
    /// must be handed out before any new device read.
    pub leftover: Option<u8>,
}

/// What a read call must do first, given the current state.
#[derive(Debug, Copy, Clone, PartialEq, Eq, Structural)]
pub enum ReadPlan {
    /// Wait for data without bound, then read.
    Blocking,
    /// Wait for readiness up to this many milliseconds, then decide with
    /// [`read_follow_up`].
    Poll(u64),
    /// Read right away, after deciding with [`read_follow_up`].
    Immediate,
}

/// The first decision of a read: block, poll with the pending timeout, or
/// read immediately.
pub open spec fn spec_read_plan(s: ConsoleInState) -> ReadPlan {
    if s.blocking {
        ReadPlan::Blocking
    } else {
        match s.read_timeout_ms {
            Some(t) => ReadPlan::Poll(t),
            None => ReadPlan::Immediate,
        }
    }
}

/// The second decision of a non-blocking read, given whether data was ready
/// in time: on readiness, proceed to the device read and leave a short
/// timeout for the rest of an escape sequence; otherwise fail with a
/// would-block condition and clear the pending timeout.
pub open spec fn spec_read_follow_up(s: ConsoleInState, ready: bool) -> (
    Result<(), ConError>,
    ConsoleInState,
) {
    if ready {
        (Ok(()), ConsoleInState { read_timeout_ms: Some(SEQUENCE_WINDOW_MS), ..s })
    } else {
        (Err(ConError::WouldBlock), ConsoleInState { read_timeout_ms: None, ..s })
    }
}

/// Exec form of [`spec_read_plan`].
pub fn read_plan(s: &ConsoleInState) -> (r: ReadPlan)
    ensures
        r == spec_read_plan(*s),
{
    if s.blocking {
        ReadPlan::Blocking
    } else {
        match s.read_timeout_ms {
            Some(t) => ReadPlan::Poll(t),
            None => ReadPlan::Immediate,
        }
    }
}

/// Exec form of [`spec_read_follow_up`]: updates the state and says whether
/// the caller may go on to read the device.
pub fn read_follow_up(s: &mut ConsoleInState, ready: bool) -> (r: Result<(), ConError>)
    ensures
        r == spec_read_follow_up(*old(s), ready).0,
        *final(s) == spec_read_follow_up(*old(s), ready).1,
{
    if ready {
        s.read_timeout_ms = Some(SEQUENCE_WINDOW_MS);
        Ok(())
    } else {
        s.read_timeout_ms = None;
        Err(ConError::WouldBlock)
    }
}

/// Take the lookahead byte, leaving none: every device read must be
/// preceded by draining this byte.
pub fn take_leftover(s: &mut ConsoleInState) -> (r: Option<u8>)
    ensures
        r == old(s).leftover,
        *final(s) == (ConsoleInState { leftover: None, ..*old(s) }),
{
    let r = s.leftover;
    s.leftover = None;
    r
}

/// The mode saved by [`begin_event_read`], for [`end_event_read`] to
/// restore.
pub struct SavedReadMode {
    /// The blocking flag before the event read.
    pub blocking: bool,
    /// The pending read timeout before the event read.
    pub read_timeout_ms: Option<u64>,
}

/// What an event read does to the read mode before pulling bytes: with no
/// timeout it blocks, with a timeout it switches to a bounded non-blocking
/// read.
pub open spec fn spec_begin_event_read(s: ConsoleInState, timeout_ms: Option<u64>) -> ConsoleInState {
    match timeout_ms {
        None => ConsoleInState { blocking: true, read_timeout_ms: None, ..s },
        Some(t) => ConsoleInState { blocking: false, read_timeout_ms: Some(t), ..s },
    }
}

/// Set the read mode for one event read and hand back what to restore
/// afterwards.
pub fn begin_event_read(s: &mut ConsoleInState, timeout_ms: Option<u64>) -> (saved: SavedReadMode)
    ensures
        *final(s) == spec_begin_event_read(*old(s), timeout_ms),
        saved.blocking == old(s).blocking,
        saved.read_timeout_ms == old(s).read_timeout_ms,
{
    let saved = SavedReadMode { blocking: s.blocking, read_timeout_ms: s.read_timeout_ms };
    match timeout_ms {
        None => {
            s.blocking = true;
            s.read_timeout_ms = None;
        },
        Some(t) => {
            s.blocking = false;
            s.read_timeout_ms = Some(t);
        },
    }
    saved
}

/// Restore the read mode that [`begin_event_read`] replaced.  This runs on
/// every exit path of an event read, so a bounded read never leaves the
/// handle in a surprising mode.
pub fn end_event_read(s: &mut ConsoleInState, saved: &SavedReadMode)
    ensures
        final(s).blocking == saved.blocking,
        final(s).read_timeout_ms == saved.read_timeout_ms,
        final(s).leftover == old(s).leftover,
{
    s.blocking = saved.blocking;
    s.read_timeout_ms = saved.read_timeout_ms;
}

/// With blocking disabled and no data pending, a read fails with
/// [`ConError::WouldBlock`] at its first decision rather than waiting or
/// spinning; and once a poll reports data ready, the follow-up proceeds to
/// a device read.
pub proof fn lemma_would_block_contract(s: ConsoleInState, ready_later: bool)
    requires
        !s.blocking,
    ensures
        spec_read_plan(s) != ReadPlan::Blocking,
        spec_read_follow_up(s, false).0 == Err::<(), ConError>(ConError::WouldBlock),
        spec_read_follow_up(s, false).1.read_timeout_ms is None,
        spec_read_follow_up(spec_read_follow_up(s, false).1, true).0 == Ok::<(), ConError>(()),
{
}

/// The write-side state of the console: whether raw mode is on.
#[derive(Debug, Copy, Clone, PartialEq, Eq, Structural)]
pub struct ConsoleOutState {
    /// Mirrors the raw-mode attribute state of the device.
    pub raw_mode: bool,
}

/// The device action a raw-mode switch requires.
#[derive(Debug, Copy, Clone, PartialEq, Eq, Structural)]
pub enum RawSwitch {
    /// Already in the requested mode: touch nothing.
    NoChange,
    /// Apply the raw attribute set to the device.
    Activate,
    /// Restore the attributes captured before raw mode was entered.
    Suspend,
}

/// What a raw-mode switch decides: a request for the current mode is a
/// no-op; otherwise the switch needs the input side's lock (both sides are
/// one physical device), and fails with a would-block condition rather than
/// deadlocking when that lock is held elsewhere.  On success the previous
/// mode is reported.
pub open spec fn spec_set_raw_mode(s: ConsoleOutState, mode: bool, conin_free: bool) -> (
    Result<bool, ConError>,
    ConsoleOutState,
    RawSwitch,
) {
    if s.raw_mode == mode {
        (Ok(s.raw_mode), s, RawSwitch::NoChange)
    } else if conin_free {
        (
            Ok(s.raw_mode),
            ConsoleOutState { raw_mode: mode },
            if mode {
                RawSwitch::Activate
            } else {
                RawSwitch::Suspend
            },
        )
    } else {
        (Err(ConError::WouldBlock), s, RawSwitch::NoChange)
    }
}

/// Exec form of [`spec_set_raw_mode`]: updates the tracked mode and tells
/// the caller which device action to perform.  `conin_free` says whether
/// the input side's lock could be taken without blocking.
pub fn set_raw_mode_step(s: &mut ConsoleOutState, mode: bool, conin_free: bool) -> (r: (
    Result<bool, ConError>,
    RawSwitch,
))
    ensures
        r.0 == spec_set_raw_mode(*old(s), mode, conin_free).0,
        *final(s) == spec_set_raw_mode(*old(s), mode, conin_free).1,
        r.1 == spec_set_raw_mode(*old(s), mode, conin_free).2,
{
    if s.raw_mode == mode {
        (Ok(s.raw_mode), RawSwitch::NoChange)
    } else if conin_free {
        let prev = s.raw_mode;
        s.raw_mode = mode;
        (Ok(prev), if mode {
            RawSwitch::Activate
        } else {
            RawSwitch::Suspend
        })
    } else {
        (Err(ConError::WouldBlock), RawSwitch::NoChange)
    }
}

/// Enabling raw mode twice in a row is the same as enabling it once: after
/// a successful enable the second call changes nothing, needs no lock, and
/// reports that raw mode was already on.
pub proof fn lemma_raw_mode_idempotent(s: ConsoleOutState, conin_free: bool, again_free: bool)
    requires
        spec_set_raw_mode(s, true, conin_free).0 is Ok,
    ensures
        ({
            let s1 = spec_set_raw_mode(s, true, conin_free).1;
            let (r2, s2, a2) = spec_set_raw_mode(s1, true, again_free);
            r2 == Ok::<bool, ConError>(true) && s2 == s1 && a2 == RawSwitch::NoChange
        }),
{
}

/// A scoped raw-mode switch restores the exact prior mode: releasing with
/// the mode that the enable reported brings the state back to where it was,
/// and when raw mode was already active on entry the release needs no lock
/// at all.
pub proof fn lemma_raw_guard_restores(s: ConsoleOutState, conin_free: bool, release_free: bool)
    requires
        spec_set_raw_mode(s, true, conin_free).0 is Ok,
        s.raw_mode || release_free,
    ensures
        ({
            let prev = spec_set_raw_mode(s, true, conin_free).0->Ok_0;
            let s1 = spec_set_raw_mode(s, true, conin_free).1;
            let (r2, s2, a2) = spec_set_raw_mode(s1, prev, release_free);
            r2 is Ok && s2 == s
        }),
{
}

/// A token recording the mode to restore when a raw-mode scope ends.
#[derive(Debug, Copy, Clone, PartialEq, Eq, Structural)]
pub struct RawModeGuard {
    /// The raw-mode state before the scope was entered.
    pub prev_mode: bool,
}

impl RawModeGuard {
    /// Enter raw mode and record what to restore.  Fails with the
    /// would-block condition of [`spec_set_raw_mode`] when the input side
    /// cannot be locked.
    pub fn enter(s: &mut ConsoleOutState, conin_free: bool) -> (r: Result<RawModeGuard, ConError>)
        ensures
            *final(s) == spec_set_raw_mode(*old(s), true, conin_free).1,
            (r matches Ok(g) ==> Some(g.prev_mode) == (match spec_set_raw_mode(
                *old(s),
                true,
                conin_free,
            ).0 {
                Ok(p) => Some(p),
                Err(_) => None::<bool>,
            })),
            (r is Err) == (spec_set_raw_mode(*old(s), true, conin_free).0 is Err),
    {
        let (res, _action) = set_raw_mode_step(s, true, conin_free);
        match res {
            Ok(prev) => Ok(RawModeGuard { prev_mode: prev }),
            Err(e) => Err(e),
        }
    }

    /// Restore the recorded mode.  Failure to restore is reported but may
    /// be ignored by a caller releasing during teardown.
    pub fn release(self, s: &mut ConsoleOutState, conin_free: bool) -> (r: Result<bool, ConError>)
        ensures
            *final(s) == spec_set_raw_mode(*old(s), self.prev_mode, conin_free).1,
            r == spec_set_raw_mode(*old(s), self.prev_mode, conin_free).0,
    {
        let (res, _action) = set_raw_mode_step(s, self.prev_mode, conin_free);
        res
    }
}

/// A console writer backed by memory: it records everything written and
/// tracks the raw-mode flag itself: the write half used where output is
/// captured rather than sent to a device.
pub struct OutputBuffer {
    /// Everything written so far, in order.
    pub written: Vec<u8>,
    /// The tracked raw-mode flag.
    pub raw_mode: bool,
}

impl OutputBuffer {
    /// An empty buffer, not in raw mode.
    pub fn new() -> (r: OutputBuffer)
        ensures
            r.written@ == Seq::<u8>::empty(),
            !r.raw_mode,
    {
        OutputBuffer { written: Vec::new(), raw_mode: false }
    }
}

impl ConsoleWrite for OutputBuffer {
    /// Exactly the recorded bytes.
    open spec fn sink(&self) -> Seq<u8> {
        self.written@
    }

    fn write_all(&mut self, buf: &[u8]) -> Result<(), ConError> {
        self.written.extend_from_slice(buf);
        Ok(())
    }

    fn flush(&mut self) -> Result<(), ConError> {
        Ok(())
    }

    fn set_raw_mode(&mut self, mode: bool) -> Result<bool, ConError> {
        let prev = self.raw_mode;
        self.raw_mode = mode;
        Ok(prev)
    }

    fn is_raw_mode(&self) -> bool {
        self.raw_mode
    }
}

} // verus!
