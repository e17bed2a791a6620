use vstd::prelude::*;

use vstd::string::StringExecFns;

verus! {

/// `std::io::Error`, carried by `LabelizeError::Io`.
#[verifier::external_type_specification]
#[verifier::external_body]
pub struct ExIoError(std::io::Error);

/// The errors of parsing, rendering and encoding labels.
#[derive(Debug)]
pub enum LabelizeError {
    Parse(String),
    Render(String),
    Encode(String),
    Io(std::io::Error),
    Other(String),
}

/// `<std::io::Error as ToString>::to_string`: the error's text, which comes from the
/// operating system and is not stated here.
#[verifier::external_body]
fn io_error_text(e: &std::io::Error) -> (text: String) {
    e.to_string()
}

impl LabelizeError {
    /// The error's message: "Parse error: ", "Render error: ", "Encode error: " or
    /// "IO error: " followed by its text; an `Other` error is its text alone.
    pub fn message(&self) -> (m: String)
        ensures
            self matches LabelizeError::Parse(s) ==> m@ == "Parse error: "@ + s@,
            self matches LabelizeError::Render(s) ==> m@ == "Render error: "@ + s@,
            self matches LabelizeError::Encode(s) ==> m@ == "Encode error: "@ + s@,
            self is Io ==> exists|t: Seq<char>| m@ == "IO error: "@ + t,
            self matches LabelizeError::Other(s) ==> m@ == s@,
    {
        match self {
            LabelizeError::Parse(s) => String::from_str("Parse error: ").concat(s.as_str()),
            LabelizeError::Render(s) => String::from_str("Render error: ").concat(s.as_str()),
            LabelizeError::Encode(s) => String::from_str("Encode error: ").concat(s.as_str()),
            LabelizeError::Io(e) => {
                let text = io_error_text(e);
                let m = String::from_str("IO error: ").concat(text.as_str());
                assert(m@ == "IO error: "@ + text@);
                m
            },
            LabelizeError::Other(s) => s.clone(),
        }
    }
}

} // verus!
