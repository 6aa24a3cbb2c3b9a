pub mod bridge;
pub mod evaluator;
pub mod json;
pub mod meta;
pub mod naming;
pub mod paths;
pub mod queue;
pub mod vault_ops;
pub mod sched;
pub mod scanner;
pub mod slug;
pub mod strutil;
pub mod transfer;
pub mod trash;

use vstd::prelude::*;

verus! {

/// The vault root path, as handed to every operation core.
pub struct VaultState(pub String);

/// The one flat error kind per operation.
#[derive(Debug)]
pub enum VaultError {
    InvalidPath,
    Conflict,
    InvalidMeta,
    Io,
    MissingTask,
}

/// Window close behaviour accepted from the host: anything but "exit"
/// collapses to "minimize".
pub fn normalize_close_behavior(value: &str) -> (r: String)
    ensures
        r@ == (if value@ == "exit"@ {
            "exit"@
        } else {
            "minimize"@
        }),
{
    let v = value.to_owned();
    let exit = String::from_str("exit");
    if v == exit {
        String::from_str("exit")
    } else {
        String::from_str("minimize")
    }
}

} // verus!
