//! The writes as the characters that a terminal takes.

use vstd::prelude::*;
use vstd::string::StringExecFns;
use crate::screen::CellWrite;

verus! {

/// The character for a decimal digit.
pub open spec fn digit(d: int) -> char
    recommends
        0 <= d < 10,
{
    ('0' as u8 + d) as char
}

/// `n` in decimal digits, without leading zeros.
pub open spec fn decimal(n: nat) -> Seq<char>
    decreases n,
{
    if n < 10 {
        seq![digit(n as int)]
    } else {
        decimal(n / 10).push(digit((n % 10) as int))
    }
}

/// The control sequence that moves the terminal's cursor to column `x` of
/// row `y`: escape, `[`, the row, `;`, the column, `H`.
pub open spec fn cursor_to(x: u16, y: u16) -> Seq<char> {
    seq!['\x1b', '['] + decimal(y as nat) + seq![';'] + decimal(x as nat) + seq!['H']
}

/// What is sent to the terminal for `writes`: for each of them in turn the
/// move of the cursor to its position, then its glyph.
pub open spec fn rendered(writes: Seq<CellWrite>) -> Seq<char>
    decreases writes.len(),
{
    if writes.len() == 0 {
        Seq::empty()
    } else {
        rendered(writes.drop_last()) + cursor_to(writes.last().x, writes.last().y).push(
            writes.last().glyph,
        )
    }
}

/// `termion::cursor::Goto(x, y)`, formatted. Trusted: that it writes the
/// escape character, `[`, the row `y` in decimal, `;`, the column `x` in
/// decimal and `H`. Positions count from 1, and `Goto` insists on it.
#[verifier::external_body]
fn goto(x: u16, y: u16) -> (sequence: String)
    requires
        x >= 1,
        y >= 1,
    ensures
        sequence@ == cursor_to(x, y),
{
    format!("{}", termion::cursor::Goto(x, y))
}

/// `String::push`. Trusted: that it appends the character to the string.
pub assume_specification[ String::push ](s: &mut String, ch: char)
    ensures
        final(s)@ == old(s)@.push(ch),
;

/// The characters to send to the terminal for `writes`, none of which may
/// have a zero for its column or row.
pub fn render(writes: &Vec<CellWrite>) -> (out: String)
    requires
        forall|k: int| 0 <= k < writes.len() ==> (#[trigger] writes[k]).x >= 1 && writes[k].y >= 1,
    ensures
        out@ == rendered(writes@),
{
    let mut out = String::new();
    let mut k: usize = 0;
    while k < writes.len()
        invariant
            k <= writes.len(),
            forall|k: int|
                0 <= k < writes.len() ==> (#[trigger] writes[k]).x >= 1 && writes[k].y >= 1,
            out@ == rendered(writes@.take(k as int)),
        decreases writes.len() - k,
    {
        let write = writes[k];
        let sequence = goto(write.x, write.y);
        proof {
            assert(writes@.take(k + 1).drop_last() == writes@.take(k as int));
        }
        out.append(sequence.as_str());
        out.push(write.glyph);
        k += 1;
    }
    proof {
        assert(writes@.take(k as int) == writes@);
    }
    out
}

} // verus!
