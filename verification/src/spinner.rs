//! The frames of the terminal spinner shown while git works.
use vstd::prelude::*;
use crate::text::to_string;

verus! {

/// The spinner's frames, in order.
pub open spec fn frames() -> Seq<char> {
    seq!['⠋', '⠙', '⠹', '⠸', '⠼', '⠴', '⠦', '⠧', '⠇', '⠏']
}

/// The frame shown at step `i`.
pub fn frame(i: usize) -> (c: char)
    requires
        i < 10,
    ensures
        c == frames()[i as int],
{
    let all = ['⠋', '⠙', '⠹', '⠸', '⠼', '⠴', '⠦', '⠧', '⠇', '⠏'];
    assert(all@ =~= frames());
    all[i]
}

/// The step after `i`, going round the frames.
pub fn next_frame(i: usize) -> (r: usize)
    requires
        i < 10,
    ensures
        r == (i + 1) % 10,
        r < 10,
{
    (i + 1) % 10
}

/// What the spinner draws at step `i`: back to the line start, the frame
/// and the message.
pub fn spinner_line(i: usize, message: &str) -> (r: String)
    requires
        i < 10,
    ensures
        r@ == "\r  "@ + seq![frames()[i as int]] + " "@ + message@,
{
    let mut r = to_string("\r  ");
    let c = frame(i);
    let cs = vec![c];
    let fs = crate::text::from_chars(&cs);
    r.append(fs.as_str());
    r.append(" ");
    r.append(message);
    assert(cs@ =~= seq![frames()[i as int]]);
    r
}

/// What clears the spinner's line.
pub fn clear_line() -> (r: &'static str)
    ensures
        r@ == "\r\x1b[K\r"@,
{
    "\r\x1b[K\r"
}

} // verus!
