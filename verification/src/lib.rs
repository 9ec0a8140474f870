//! A bounded message-log store: each logical table keeps at most a fixed
//! number of chat-message records, evicting the record with the smallest
//! `msg_id` when an insert would exceed the capacity. The store also carries
//! the codec that joins attachment references into a single delimited string
//! and splits them back out.

use vstd::prelude::*;

pub mod codec;
pub mod errors;
pub mod record;
pub mod retention;
pub mod store;
pub mod table;

verus! {

/// An error that is reported by printing its text, used by callers that
/// only want to surface a message and carry on.
pub struct PrintError(pub String);

impl PrintError {
    /// The text carried by the error.
    pub fn message(&self) -> (r: &String)
        ensures
            r@ == self.0@,
    {
        &self.0
    }
}

/// Data shared by the callers that drive the store: the store keeps no
/// process-wide state beyond what each operation is handed, so there is
/// nothing in it.
pub struct Data {}

} // verus!
