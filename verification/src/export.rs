use vstd::prelude::*;

verus! {

#[verifier::external_type_specification]
#[verifier::external_body]
pub struct ExIoError(std::io::Error);

/// Why a value could not be exported.
#[derive(Debug)]
pub enum ExportError {
    IOError(std::io::Error),
    NotImplemented(&'static str),
}

impl From<std::io::Error> for ExportError {
    fn from(e: std::io::Error) -> (r: Self) {
        ExportError::IOError(e)
    }
}

impl vstd::std_specs::convert::FromSpecImpl<std::io::Error> for ExportError {
    open spec fn obeys_from_spec() -> bool {
        true
    }

    open spec fn from_spec(e: std::io::Error) -> ExportError {
        ExportError::IOError(e)
    }
}

/// The message of an I/O error, as its `Display` writes it.
#[verifier::external_body]
fn io_error_text(e: &std::io::Error) -> (s: String) {
    format!("{}", e)
}

impl ExportError {
    /// The message of the error: that of the I/O error, or "Not implemented: "
    /// followed by what was not.
    pub fn to_string(&self) -> (s: String)
        ensures
            self matches ExportError::NotImplemented(what) ==> s@ == "Not implemented: "@ + what@,
    {
        match self {
            ExportError::IOError(e) => io_error_text(e),
            ExportError::NotImplemented(what) => {
                let mut s = String::from_str("Not implemented: ");
                s.append(what);
                s
            },
        }
    }
}

} // verus!
