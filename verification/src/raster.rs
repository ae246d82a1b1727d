//! Binary patterns rendered as four bytes a pixel.

use vstd::prelude::*;

verus! {

/// The byte that a cell of a binary pattern is rendered as.
pub open spec fn level(on: bool) -> u8 {
    if on {
        255
    } else {
        0
    }
}

/// `out` renders `pattern`: red, green and blue carry the cell's level, and
/// alpha is opaque.
pub open spec fn is_rgba_of(out: Seq<u8>, pattern: Seq<bool>) -> bool {
    &&& out.len() == 4 * pattern.len()
    &&& forall|i: int|
        0 <= i < pattern.len() ==> {
            &&& #[trigger] out[4 * i] == level(pattern[i])
            &&& out[4 * i + 1] == level(pattern[i])
            &&& out[4 * i + 2] == level(pattern[i])
            &&& out[4 * i + 3] == 255
        }
}

/// Renders a binary pattern as four bytes a pixel.
pub fn render_rgba(pattern: &Vec<bool>) -> (out: Vec<u8>)
    requires
        4 * pattern.len() <= usize::MAX,
    ensures
        is_rgba_of(out@, pattern@),
{
    let mut out: Vec<u8> = Vec::new();
    let mut i: usize = 0;
    while i < pattern.len()
        invariant
            i <= pattern.len(),
            out.len() == 4 * i,
            forall|k: int|
                0 <= k < i ==> {
                    &&& #[trigger] out[4 * k] == level(pattern[k])
                    &&& out[4 * k + 1] == level(pattern[k])
                    &&& out[4 * k + 2] == level(pattern[k])
                    &&& out[4 * k + 3] == 255
                },
        decreases pattern.len() - i,
    {
        let value: u8 = if pattern[i] {
            255
        } else {
            0
        };
        out.push(value);
        out.push(value);
        out.push(value);
        out.push(255);
        i = i + 1;
    }
    out
}

} // verus!
