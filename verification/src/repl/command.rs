//! A shell command: its name, help text and handler.
use vstd::prelude::*;

verus! {

/// A command of the shell. The handler is what the command runs.
pub struct Command<'a, H> {
    pub name: &'a str,
    pub description: &'a str,
    pub usage: &'a str,
    pub handler: H,
}

impl<'a, H> Command<'a, H> {
    pub fn new(name: &'a str, description: &'a str, usage: &'a str, handler: H) -> (r: Self)
        ensures
            r.name == name,
            r.description == description,
            r.usage == usage,
            r.handler == handler,
    {
        Self { name, description, usage, handler }
    }
}

} // verus!
