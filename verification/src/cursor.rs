//! Cursor movement: encoders for the cursor control sequences, and the
//! parser for the terminal's cursor-position report.
use crate::bytes::{split_from, split_semis, spec_parse_u16, parse_u16_bytes};
use crate::console::ConError;
use crate::event::check_valid_utf8;
use numtoa::NumToA;
use vstd::prelude::*;
use vstd::string::*;
use vstd::utf8::valid_utf8;

verus! {

/// The decimal digits of `n`, most significant first, no sign and no
/// leading zeros (`0` itself is one digit).
pub open spec fn spec_dec_digits(n: nat) -> Seq<char>
    decreases n,
{
    if n < 10 {
        seq![((n + 48) as u8) as char]
    } else {
        spec_dec_digits(n / 10).push((((n % 10) + 48) as u8) as char)
    }
}

/// The escape sequence that moves the cursor to column `x`, row `y`
/// (one-based): `ESC [ y ; x H`.
pub open spec fn spec_goto_seq(x: u16, y: u16) -> Seq<char> {
    seq!['\x1b', '['] + spec_dec_digits(y as nat) + seq![';'] + spec_dec_digits(x as nat)
        + seq!['H']
}

/// The escape sequence of a relative cursor move: `ESC [ n` followed by the
/// direction's final letter.
pub open spec fn spec_move_seq(n: u16, suffix: char) -> Seq<char> {
    seq!['\x1b', '['] + spec_dec_digits(n as nat) + seq![suffix]
}

/// Relies on numtoa's `numtoa_str` in base 10: it renders the number's
/// decimal digits into the buffer, most significant first, with no sign
/// and no leading zeros.
#[verifier::external_body]
fn u16_dec_str(n: u16) -> (r: String)
    ensures
        r@ == spec_dec_digits(n as nat),
{
    let mut buf = [0u8; 20];
    n.numtoa_str(10, &mut buf).to_string()
}

/// `ESC [`, the digits of `n`, then `suffix`.
fn csi_num(n: u16, suffix: &str) -> (r: String)
    ensures
        r@ == seq!['\x1b', '['] + spec_dec_digits(n as nat) + suffix@,
{
    let mut s = String::new();
    s.append("\x1b[");
    let d = u16_dec_str(n);
    s.append(d.as_str());
    s.append(suffix);
    proof {
        reveal_strlit("\x1b[");
        assert(s@ =~= seq!['\x1b', '['] + spec_dec_digits(n as nat) + suffix@);
    }
    s
}

/// Goto some position ((1,1)-based).
///
/// ANSI cursor addressing is one-based: `Goto(1, 1)` is the top left
/// corner, and `Goto(0, 0)` is not a position at all.
#[derive(Debug, Copy, Clone, PartialEq, Eq, Structural)]
pub struct Goto(pub u16, pub u16);

impl Goto {
    /// The escape sequence performing this move.
    pub fn sequence(&self) -> (r: String)
        ensures
            r@ == spec_goto_seq(self.0, self.1),
    {
        let mut s = String::new();
        s.append("\x1b[");
        let ys = u16_dec_str(self.1);
        s.append(ys.as_str());
        s.append(";");
        let xs = u16_dec_str(self.0);
        s.append(xs.as_str());
        s.append("H");
        proof {
            reveal_strlit("\x1b[");
            reveal_strlit(";");
            reveal_strlit("H");
            assert(s@ =~= spec_goto_seq(self.0, self.1));
        }
        s
    }
}

impl Default for Goto {
    /// The top left corner, the origin of one-based cursor addressing.
    fn default() -> (r: Goto)
        ensures
            r == Goto(1, 1),
    {
        Goto(1, 1)
    }
}

/// Move cursor left.
#[derive(Debug, Copy, Clone, PartialEq, Eq, Structural)]
pub struct Left(pub u16);

impl Left {
    /// The escape sequence performing this move.
    pub fn sequence(&self) -> (r: String)
        ensures
            r@ == spec_move_seq(self.0, 'D'),
    {
        let s = csi_num(self.0, "D");
        proof {
            reveal_strlit("D");
            assert(s@ =~= spec_move_seq(self.0, 'D'));
        }
        s
    }
}

/// Move cursor right.
#[derive(Debug, Copy, Clone, PartialEq, Eq, Structural)]
pub struct Right(pub u16);

impl Right {
    /// The escape sequence performing this move.
    pub fn sequence(&self) -> (r: String)
        ensures
            r@ == spec_move_seq(self.0, 'C'),
    {
        let s = csi_num(self.0, "C");
        proof {
            reveal_strlit("C");
            assert(s@ =~= spec_move_seq(self.0, 'C'));
        }
        s
    }
}

/// Move cursor up.
#[derive(Debug, Copy, Clone, PartialEq, Eq, Structural)]
pub struct Up(pub u16);

impl Up {
    /// The escape sequence performing this move.
    pub fn sequence(&self) -> (r: String)
        ensures
            r@ == spec_move_seq(self.0, 'A'),
    {
        let s = csi_num(self.0, "A");
        proof {
            reveal_strlit("A");
            assert(s@ =~= spec_move_seq(self.0, 'A'));
        }
        s
    }
}

/// Move cursor down.
#[derive(Debug, Copy, Clone, PartialEq, Eq, Structural)]
pub struct Down(pub u16);

impl Down {
    /// The escape sequence performing this move.
    pub fn sequence(&self) -> (r: String)
        ensures
            r@ == spec_move_seq(self.0, 'B'),
    {
        let s = csi_num(self.0, "B");
        proof {
            reveal_strlit("B");
            assert(s@ =~= spec_move_seq(self.0, 'B'));
        }
        s
    }
}

/// Hide the cursor.
pub struct Hide;

impl Hide {
    /// The escape sequence performing this change.
    pub fn sequence(&self) -> (r: String)
        ensures
            r@ == "\x1b[?25l"@,
    {
        String::from_str("\x1b[?25l")
    }
}

/// Show the cursor.
pub struct Show;

impl Show {
    /// The escape sequence performing this change.
    pub fn sequence(&self) -> (r: String)
        ensures
            r@ == "\x1b[?25h"@,
    {
        String::from_str("\x1b[?25h")
    }
}

/// Save the cursor position.
pub struct Save;

impl Save {
    /// The escape sequence performing this change.
    pub fn sequence(&self) -> (r: String)
        ensures
            r@ == "\x1b[s"@,
    {
        String::from_str("\x1b[s")
    }
}

/// Restore the saved cursor position.
pub struct Restore;

impl Restore {
    /// The escape sequence performing this change.
    pub fn sequence(&self) -> (r: String)
        ensures
            r@ == "\x1b[u"@,
    {
        String::from_str("\x1b[u")
    }
}

/// The escape sequence that moves the cursor to `(x, y)` (one-based).
/// Writing it to the console output, then flushing, performs the move.
pub fn goto(x: u16, y: u16) -> (r: String)
    ensures
        r@ == spec_goto_seq(x, y),
{
    Goto(x, y).sequence()
}

/// The escape sequence that asks the terminal where the cursor is.  The
/// terminal answers `ESC [ row ; col R` on the input stream.
pub fn cursor_pos_query() -> (r: String)
    ensures
        r@ == "\x1b[6n"@,
{
    String::from_str("\x1b[6n")
}

/// Index of the last `[` in `s`, or -1 when there is none.
pub open spec fn last_bracket(s: Seq<u8>) -> int
    decreases s.len(),
{
    if s.len() == 0 {
        -1
    } else if s.last() == 91 {
        s.len() - 1
    } else {
        last_bracket(s.drop_last())
    }
}

proof fn lemma_last_bracket_found(s: Seq<u8>, j: int)
    requires
        0 <= j < s.len(),
        s[j] == 91,
        forall|i: int| j < i < s.len() ==> #[trigger] s[i] != 91,
    ensures
        last_bracket(s) == j,
    decreases s.len(),
{
    if j == s.len() - 1 {
    } else {
        assert(s.drop_last()[j] == s[j]);
        lemma_last_bracket_found(s.drop_last(), j);
    }
}

proof fn lemma_last_bracket_none(s: Seq<u8>)
    requires
        forall|i: int| 0 <= i < s.len() ==> #[trigger] s[i] != 91,
    ensures
        last_bracket(s) == -1,
    decreases s.len(),
{
    if s.len() > 0 {
        lemma_last_bracket_none(s.drop_last());
    }
}

/// What the terminal's cursor-position reply means.  The reply must end
/// with the terminator `R`; its body, after the last `[`, is `row ; col`.
/// A reply without the terminator is what a terminal that never answered
/// leaves behind, so it reads as a timeout; a terminated reply whose body
/// cannot be read fails as unparsable.
pub open spec fn spec_cursor_pos(reply: Seq<u8>) -> Result<(u16, u16), ConError> {
    if reply.len() >= 2 && reply.last() == 82 {
        let body = reply.drop_last();
        if valid_utf8(body) {
            let b = last_bracket(body);
            if b >= 0 {
                let pieces = split_from(body.skip(b + 1), 0);
                if pieces.len() >= 2 {
                    match (spec_parse_u16(pieces[0]), spec_parse_u16(pieces[1])) {
                        (Some(cy), Some(cx)) => Ok((cx, cy)),
                        _ => Err(ConError::ParseFailed),
                    }
                } else {
                    Err(ConError::ParseFailed)
                }
            } else {
                Err(ConError::ParseFailed)
            }
        } else {
            Err(ConError::ParseFailed)
        }
    } else {
        Err(ConError::TimedOut)
    }
}

/// Read the cursor position out of the terminal's reply to
/// [`cursor_pos_query`].
///
/// The caller performs the exchange: write the query, then collect reply
/// bytes up to and including the terminator `R`, giving up after a bounded
/// wait (100 milliseconds in the reference exchange) so an unsupporting
/// terminal cannot hang it.  Whatever was collected is handed here; a
/// reply that never reached the terminator reads as
/// [`ConError::TimedOut`].  On success the pair is `(column, row)`,
/// one-based.
#[verifier::loop_isolation(false)]
pub fn cursor_pos(reply: &[u8]) -> (r: Result<(u16, u16), ConError>)
    ensures
        r == spec_cursor_pos(reply@),
{
    let n = reply.len();
    if n < 2 || *vstd::slice::slice_index_get(reply, n - 1) != 82 {
        return Err(ConError::TimedOut);
    }
    let body = vstd::slice::slice_subrange(reply, 0, n - 1);
    proof {
        assert(body@ =~= reply@.drop_last());
    }
    if !check_valid_utf8(body) {
        return Err(ConError::ParseFailed);
    }
    let m = body.len();
    let mut k = m;
    loop
        invariant
            0 <= k <= m,
            m == body@.len(),
            forall|i: int| k <= i < m ==> #[trigger] body@[i] != 91,
        decreases k,
    {
        if k == 0 {
            proof {
                lemma_last_bracket_none(body@);
            }
            return Err(ConError::ParseFailed);
        }
        if *vstd::slice::slice_index_get(body, k - 1) == 91 {
            proof {
                lemma_last_bracket_found(body@, k - 1);
            }
            let coords = vstd::slice::slice_subrange(body, k, m);
            proof {
                assert(coords@ =~= body@.skip(k as int));
            }
            let pieces = split_semis(coords);
            if pieces.len() < 2 {
                return Err(ConError::ParseFailed);
            }
            proof {
                assert(pieces@[0].deep_view() =~= pieces@[0]@);
                assert(pieces@[1].deep_view() =~= pieces@[1]@);
            }
            let cy = match parse_u16_bytes(pieces[0].as_slice()) {
                Some(v) => v,
                None => {
                    return Err(ConError::ParseFailed);
                },
            };
            let cx = match parse_u16_bytes(pieces[1].as_slice()) {
                Some(v) => v,
                None => {
                    return Err(ConError::ParseFailed);
                },
            };
            return Ok((cx, cy));
        }
        k = k - 1;
    }
}

} // verus!
