//! The live child-process handle from the async runtime, declared so the
//! registry and the cancellation slot can hold and hand over handles.  A
//! handle is opaque here: the logic only carries it and reads its process
//! id; spawning, waiting and killing happen outside the library.

use vstd::prelude::*;

verus! {

/// Relies on `tokio::process::Child`, the handle of a spawned child
/// process.  The library stores such handles and passes them through; it
/// never inspects them beyond `id`.
#[verifier::external_type_specification]
#[verifier::external_body]
pub struct ExChild(tokio::process::Child);

/// Relies on `tokio::process::Child::id`: the OS process id while the child
/// is still running, and nothing once it has been polled to completion.
/// Which of the two comes back depends on the process's state, so nothing
/// more can be promised of the result.
pub assume_specification[ tokio::process::Child::id ](child: &tokio::process::Child) -> (r: Option<
    u32,
>);

} // verus!
