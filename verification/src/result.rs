use vstd::prelude::*;

verus! {

/// Error reported when the remote peer fails to execute a command.
///
/// The peer answers a failed command with a reply carrying a human-readable
/// message; that message is kept here verbatim.
pub struct CanvasError {
    message: String,
}

impl CanvasError {
    /// The message this error carries.
    pub closed spec fn spec_message(&self) -> Seq<char> {
        self.message@
    }

    pub fn new(message: String) -> (e: CanvasError)
        ensures
            e.spec_message() == message@,
    {
        CanvasError { message }
    }

    /// Read access to the carried message.
    pub fn message(&self) -> (m: &str)
        ensures
            m@ == self.spec_message(),
    {
        self.message.as_str()
    }
}

} // verus!
