use vstd::prelude::*;

verus! {

/// Why a size could not be computed.
#[derive(Debug, PartialEq, Eq)]
pub enum SizeError {
    /// A visited path does not exist.
    NotFound,
    /// The filesystem refused a read; the text is the reason it gave.
    Io(String),
}

impl SizeError {
    /// The text that tells a user of this error.
    pub open spec fn text(self) -> Seq<char> {
        match self {
            SizeError::NotFound => "Path does not exist"@,
            SizeError::Io(reason) => reason@,
        }
    }

    /// The error as a text for the user: a fixed sentence for a path that does not
    /// exist, else the reason that the filesystem gave, unchanged.
    pub fn message(&self) -> (text: String)
        ensures
            text@ == self.text(),
    {
        match self {
            SizeError::NotFound => "Path does not exist".to_string(),
            SizeError::Io(reason) => reason.clone(),
        }
    }
}

} // verus!
