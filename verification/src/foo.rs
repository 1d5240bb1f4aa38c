//! A value that is known by its name.

use vstd::prelude::*;

verus! {

/// A named value.
pub struct Foo {
    pub name: String,
}

/// Takes `arg` over from the caller, who can no longer use it, and lets it go.
pub fn bar(arg: Foo) {
}

} // verus!
