//! What the window does on a key press: one key ends the render loop, every
//! other key is ignored.
use vstd::prelude::*;

verus! {

/// A pressed key, as far as the gear window tells keys apart.
#[derive(Clone, Copy, Debug, PartialEq, Eq, Structural)]
pub enum Key {
    Escape,
    Other,
}

/// What the render loop does next.
#[derive(Clone, Copy, Debug, PartialEq, Eq, Structural)]
pub enum Response {
    Terminate,
    Continue,
}

/// Escape ends the render loop; any other key leaves it running.
pub fn respond_to_key(key: Key) -> (r: Response)
    ensures
        r == (if key == Key::Escape {
            Response::Terminate
        } else {
            Response::Continue
        }),
{
    match key {
        Key::Escape => Response::Terminate,
        Key::Other => Response::Continue,
    }
}

} // verus!
