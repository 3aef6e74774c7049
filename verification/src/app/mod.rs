//! The application that requests are handed to.

use vstd::prelude::*;

verus! {

/// An application. It holds nothing yet.
#[derive(Debug)]
pub struct App {}

impl App {
    pub fn new() -> (r: App)
        ensures
            r == (App {  }),
    {
        App {  }
    }
}

} // verus!
