//! The built-in behaviour that a plugin may fall back on.
use crate::bridge::Operation;
use vstd::prelude::*;

verus! {

/// The name under which the built-in remove is offered to a plugin.
pub open spec fn default_remove_name() -> Seq<char> {
    "default_remove_function"@
}

/// The name under which the built-in update is offered to a plugin.
pub open spec fn default_update_name() -> Seq<char> {
    "default_update_function"@
}

/// The functions that are put into a plugin's globals, each with the
/// operation whose built-in behaviour it runs. Install has none: every
/// plugin brings its own.
pub fn inject_plugins() -> (table: Vec<(String, Operation)>)
    ensures
        table@.len() == 2,
        table@[0].0@ == default_remove_name(),
        table@[0].1 == Operation::Remove,
        table@[1].0@ == default_update_name(),
        table@[1].1 == Operation::Update,
{
    let mut table: Vec<(String, Operation)> = Vec::new();
    table.push(("default_remove_function".to_string(), Operation::Remove));
    table.push(("default_update_function".to_string(), Operation::Update));
    table
}

} // verus!
