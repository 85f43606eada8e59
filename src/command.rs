//! The request: which notation to produce, and the input as given in pieces.

use crate::error::strs;
use crate::text::push_str;
use vstd::prelude::*;

verus! {

/// An output notation.
#[derive(Clone, Copy, Debug, PartialEq, Eq, Structural)]
pub enum Format {
    /// Six lowercase hexadecimal digits, e.g. `ffffff`.
    Hex,
    /// `rgb(R, G, B)`, e.g. `rgb(255, 255, 255)`.
    Rgb,
    /// `hsl(H, S, L)`, e.g. `hsl(0, 0, 100)`.
    Hsl,
    /// `hsv(H, S, V)`; not produced yet.
    Hsv,
    /// `cmyk(C, M, Y, K)`; not produced yet.
    Cmyk,
}

/// The strings of `parts` run together.
pub open spec fn concat_all(parts: Seq<Seq<char>>) -> Seq<char>
    decreases parts.len(),
{
    if parts.len() == 0 {
        Seq::empty()
    } else {
        concat_all(parts.drop_last()) + parts.last()
    }
}

/// A conversion request: the target notation and the pieces of the input color.
#[derive(Debug)]
pub struct Command {
    fmt: Format,
    input: Vec<String>,
}

impl Command {
    pub fn new(fmt: Format, input: Vec<String>) -> (r: Command)
        ensures
            r.fmt_spec() == fmt,
            strs(r.input_spec()) == strs(input@),
    {
        Command { fmt, input }
    }

    pub closed spec fn fmt_spec(&self) -> Format {
        self.fmt
    }

    pub closed spec fn input_spec(&self) -> Seq<String> {
        self.input@
    }

    /// The pieces of the input run together.
    pub fn input(&self) -> (r: String)
        ensures
            r@ == concat_all(strs(self.input_spec())),
    {
        let mut out = String::new();
        let mut i: usize = 0;
        while i < self.input.len()
            invariant
                i <= self.input@.len(),
                out@ == concat_all(strs(self.input@.subrange(0, i as int))),
            decreases self.input@.len() - i,
        {
            push_str(&mut out, self.input[i].as_str());
            proof {
                let ps = strs(self.input@.subrange(0, i + 1));
                assert(ps.drop_last() =~= strs(self.input@.subrange(0, i as int)));
            }
            i = i + 1;
        }
        proof {
            assert(self.input@.subrange(0, self.input@.len() as int) =~= self.input@);
        }
        out
    }

    pub fn fmt(&self) -> (r: Format)
        ensures
            r == self.fmt_spec(),
    {
        self.fmt
    }
}

} // verus!
