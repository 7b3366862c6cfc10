use vstd::prelude::*;

verus! {

/// The entry of a looping list of `len` per-frame transforms that a state frame shows.
pub fn frame_index(frame: u16, len: usize) -> (i: usize)
    requires
        len > 0,
    ensures
        i == frame as int % len as int,
        i < len,
{
    (frame as usize) % len
}

} // verus!
