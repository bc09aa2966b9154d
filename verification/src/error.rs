//! The errors that reach the caller.

use vstd::prelude::*;

use crate::text::push_str;

verus! {

/// What can go wrong with a request.
#[derive(Debug)]
pub enum TilthError {
    /// The path does not exist; a similar name may be known.
    NotFound { path: String, suggestion: Option<String> },
    /// The path may not be read.
    PermissionDenied { path: String },
    /// Reading or writing failed; `message` is what the system said.
    IoError { path: String, message: String },
    /// The query or range cannot be used.
    InvalidQuery { query: String, reason: String },
    /// An edit was made against an older state of the file; `view` shows the
    /// current one.
    HashMismatch { view: String },
    /// A request was no valid JSON-RPC.
    ParseError { message: String },
    /// No tool of this name.
    UnknownTool { name: String },
    /// No method of this name.
    UnknownMethod { name: String },
}

impl TilthError {
    /// The message of the error.
    pub open spec fn message_text(self) -> Seq<char> {
        match self {
            TilthError::NotFound { path, suggestion } => "not found: "@ + path@ + (
            match suggestion {
                Some(s) => " — did you mean: "@ + s@ + "?"@,
                None => Seq::empty(),
            }),
            TilthError::PermissionDenied { path } => "permission denied: "@ + path@,
            TilthError::IoError { path, message } => path@ + ": "@ + message@,
            TilthError::InvalidQuery { query, reason } => "invalid query \""@ + query@ + "\": "@
                + reason@,
            TilthError::HashMismatch { view } => "hash mismatch — file changed since last read:\n\n"@
                + view@,
            TilthError::ParseError { message } => "parse error: "@ + message@,
            TilthError::UnknownTool { name } => "unknown tool: "@ + name@,
            TilthError::UnknownMethod { name } => "method not found: "@ + name@,
        }
    }

    /// The message of the error, as shown to the caller.
    pub fn message(&self) -> (text: String)
        ensures
            text@ == self.message_text(),
    {
        let mut out = String::new();
        match self {
            TilthError::NotFound { path, suggestion } => {
                push_str(&mut out, "not found: ");
                push_str(&mut out, path.as_str());
                match suggestion {
                    Some(s) => {
                        push_str(&mut out, " — did you mean: ");
                        push_str(&mut out, s.as_str());
                        push_str(&mut out, "?");
                    },
                    None => {},
                }
                assert(out@ =~= self.message_text());
            },
            TilthError::PermissionDenied { path } => {
                push_str(&mut out, "permission denied: ");
                push_str(&mut out, path.as_str());
                assert(out@ =~= self.message_text());
            },
            TilthError::IoError { path, message } => {
                push_str(&mut out, path.as_str());
                push_str(&mut out, ": ");
                push_str(&mut out, message.as_str());
                assert(out@ =~= self.message_text());
            },
            TilthError::InvalidQuery { query, reason } => {
                push_str(&mut out, "invalid query \"");
                push_str(&mut out, query.as_str());
                push_str(&mut out, "\": ");
                push_str(&mut out, reason.as_str());
                assert(out@ =~= self.message_text());
            },
            TilthError::HashMismatch { view } => {
                push_str(&mut out, "hash mismatch — file changed since last read:\n\n");
                push_str(&mut out, view.as_str());
                assert(out@ =~= self.message_text());
            },
            TilthError::ParseError { message } => {
                push_str(&mut out, "parse error: ");
                push_str(&mut out, message.as_str());
                assert(out@ =~= self.message_text());
            },
            TilthError::UnknownTool { name } => {
                push_str(&mut out, "unknown tool: ");
                push_str(&mut out, name.as_str());
                assert(out@ =~= self.message_text());
            },
            TilthError::UnknownMethod { name } => {
                push_str(&mut out, "method not found: ");
                push_str(&mut out, name.as_str());
                assert(out@ =~= self.message_text());
            },
        }
        out
    }
}

} // verus!
