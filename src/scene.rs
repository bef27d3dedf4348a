use vstd::prelude::*;

verus! {

/// Output resolution used when a scene does not give one.
pub open spec fn spec_default_size() -> (u16, u16) {
    (640, 480)
}

/// Bounce budget used when a scene does not give one.
pub open spec fn spec_default_steps() -> usize {
    4
}

/// The default output resolution, width by height in pixels.
pub fn default_size() -> (r: (u16, u16))
    ensures
        r == spec_default_size(),
{
    (640, 480)
}

/// The default number of bounces a primary ray may take.
pub fn default_steps() -> (r: usize)
    ensures
        r == spec_default_steps(),
{
    4
}

} // verus!
