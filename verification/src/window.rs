use vstd::prelude::*;

verus! {

/// The window of a running average centred on sample `i` of a signal of
/// `len` samples: `half` samples on each side, cut off at both ends of the
/// signal. Returns `(start, end)`, the window being `start..end`.
pub fn centered_window(i: usize, half: usize, len: usize) -> (window: (usize, usize))
    requires
        i < len,
        i + half + 1 <= usize::MAX,
    ensures
        window.0 == (if i >= half { i - half } else { 0 }),
        window.1 == (if i + half + 1 <= len { i + half + 1 } else { len as int }),
        window.0 <= i < window.1 <= len,
{
    let start = if i >= half { i - half } else { 0 };
    let reach = i + half + 1;
    let end = if reach <= len { reach } else { len };
    (start, end)
}

/// The number of analysis frames of `frame` samples, started every `hop`
/// samples from the beginning, that fit whole in `len` samples; `None` when
/// not even one frame fits.
pub fn frame_count(len: usize, frame: usize, hop: usize) -> (count: Option<usize>)
    requires
        hop > 0,
        frame > 0,
    ensures
        match count {
            None => len < frame,
            Some(c) => {
                &&& frame <= len
                &&& c >= 1
                &&& (c - 1) * hop + frame <= len
                &&& c * hop + frame > len
            },
        },
{
    if len < frame {
        return None;
    }
    let q = (len - frame) / hop;
    proof {
        let r: int = len - frame;
        let h: int = hop as int;
        let qi: int = q as int;
        assert(qi * h <= r < (qi + 1) * h && qi <= r) by (nonlinear_arith)
            requires
                h > 0,
                r >= 0,
                qi == r / h;
    }
    Some(q + 1)
}

} // verus!
