use vstd::prelude::*;
use vstd::string::*;

verus! {

/// Possible token parsing errors
#[derive(Debug, Clone, Copy, PartialEq, Eq, Structural)]
pub enum CybertokenError {
    /// The token holds no underscore between prefix and payload.
    IncludesUnderscore,
    /// The decoded payload is shorter than six bytes.
    TokenLength,
    /// The payload's marker byte differs from the configured version.
    VersionMismatch,
    /// The text after the underscore holds a character outside the base-62 alphabet.
    Base62DecodingError,
}

impl CybertokenError {
    /// The text that describes the error to a reader.
    pub open spec fn text(self) -> Seq<char> {
        match self {
            CybertokenError::IncludesUnderscore => "Missing underscore"@,
            CybertokenError::TokenLength => "Invalid token length"@,
            CybertokenError::VersionMismatch => "Token version mismatch"@,
            CybertokenError::Base62DecodingError => "Found invalid Base62 data"@,
        }
    }

    /// Returns the human-readable description of the error.
    pub fn message(&self) -> (s: String)
        ensures
            s@ == self.text(),
    {
        match self {
            CybertokenError::IncludesUnderscore => String::from_str("Missing underscore"),
            CybertokenError::TokenLength => String::from_str("Invalid token length"),
            CybertokenError::VersionMismatch => String::from_str("Token version mismatch"),
            CybertokenError::Base62DecodingError => String::from_str("Found invalid Base62 data"),
        }
    }
}

} // verus!
