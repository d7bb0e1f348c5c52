//! What can go wrong inside the library.

use vstd::prelude::*;

verus! {

#[derive(Debug, PartialEq, Eq)]
pub enum Error {
    /// An object lacks a metadata field that it cannot be reconciled without.
    MissingMetadata(&'static str),
    /// A command in a pod cannot do what is asked for.
    Exec(String),
    /// A server answered with an error, or with something unexpected.
    Resp(String),
}

impl Error {
    /// What the error says.
    pub open spec fn message_view(self) -> Seq<char> {
        match self {
            Error::MissingMetadata(field) => "missing object metadata field: "@ + field@,
            Error::Exec(m) => "pod exec error: "@ + m@,
            Error::Resp(m) => "redis protocol error: "@ + m@,
        }
    }

    /// What the error says.
    pub fn message(&self) -> (s: String)
        ensures
            s@ == self.message_view(),
    {
        match self {
            Error::MissingMetadata(field) => {
                let mut s = "missing object metadata field: ".to_string();
                s.append(field);
                s
            },
            Error::Exec(m) => {
                let mut s = "pod exec error: ".to_string();
                s.append(m);
                s
            },
            Error::Resp(m) => {
                let mut s = "redis protocol error: ".to_string();
                s.append(m);
                s
            },
        }
    }
}

} // verus!
