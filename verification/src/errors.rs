use vstd::prelude::*;

verus! {

/// Errors surfaced by the store and the export pipeline.
#[derive(Debug, Clone)]
pub enum DataToolErrors {
    GenericError(String),
    CsvError(String),
}

impl DataToolErrors {
    /// The text carried inside the error, whichever variant holds it.
    pub fn message(&self) -> (r: String)
        ensures
            match self {
                DataToolErrors::GenericError(m) => r@ == m@,
                DataToolErrors::CsvError(m) => r@ == m@,
            },
    {
        match self {
            DataToolErrors::GenericError(m) => m.clone(),
            DataToolErrors::CsvError(m) => m.clone(),
        }
    }
}

#[verifier::external_type_specification]
#[verifier::external_body]
pub struct ExCsvError(csv::Error);

#[verifier::external_type_specification]
#[verifier::external_body]
pub struct ExIoError(std::io::Error);

/// Relies on the `Display` impl of `csv::Error` (through `ToString`) to
/// render the error as text; nothing is assumed of the text itself.
#[verifier::external_body]
fn csv_error_text(e: &csv::Error) -> String {
    e.to_string()
}

/// Relies on the `Display` impl of `std::io::Error` (through `ToString`) to
/// render the error as text; nothing is assumed of the text itself.
#[verifier::external_body]
fn io_error_text(e: &std::io::Error) -> String {
    e.to_string()
}

impl From<csv::Error> for DataToolErrors {
    fn from(value: csv::Error) -> Self {
        DataToolErrors::CsvError(csv_error_text(&value))
    }
}

impl vstd::std_specs::convert::FromSpecImpl<csv::Error> for DataToolErrors {
    open spec fn obeys_from_spec() -> bool {
        false
    }

    closed spec fn from_spec(v: csv::Error) -> Self {
        vstd::pervasive::arbitrary()
    }
}

impl From<std::io::Error> for DataToolErrors {
    fn from(value: std::io::Error) -> Self {
        DataToolErrors::GenericError(io_error_text(&value))
    }
}

impl vstd::std_specs::convert::FromSpecImpl<std::io::Error> for DataToolErrors {
    open spec fn obeys_from_spec() -> bool {
        false
    }

    closed spec fn from_spec(v: std::io::Error) -> Self {
        vstd::pervasive::arbitrary()
    }
}

} // verus!
