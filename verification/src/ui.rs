//! Plain control and input values exchanged with a terminal front end.

use vstd::prelude::*;

verus! {

/// A command for a terminal front end.
pub enum UIControl {
    Message(String),
}

/// What a terminal front end hands back.
pub enum UIInput {
    Message(String),
    Close,
}

} // verus!
