//! The engine's error kinds.

use vstd::prelude::*;

verus! {

/// A missing file or sheet, column arrays of unequal length, an unparsable
/// date or numeric field (tagged with the field it came from), or a sheet
/// whose data exhausts the cell store's row index space.
#[derive(PartialEq, Eq, Structural, Clone, Copy, Debug)]
pub enum EngineError {
    NotFound,
    Validation,
    ParseDate,
    ParseAccountingDate,
    ParseInterestDate,
    ParseDebit,
    ParseCredit,
    RowLimit,
}

impl EngineError {
    pub open spec fn spec_message(self) -> Seq<char> {
        match self {
            EngineError::NotFound => "could not open workbook"@,
            EngineError::Validation => "different number of information"@,
            EngineError::ParseDate => "date str is not valid"@,
            EngineError::ParseAccountingDate => "accounting date is not valid"@,
            EngineError::ParseInterestDate => "interest date is not valid"@,
            EngineError::ParseDebit => "could not parse the debit amount"@,
            EngineError::ParseCredit => "could not parse the credit amount"@,
            EngineError::RowLimit => "sheet rows never reach an empty terminator"@,
        }
    }

    /// A short description of the error, for display at the settings surface.
    pub fn message(&self) -> (r: String)
        ensures
            r@ == self.spec_message(),
    {
        match self {
            EngineError::NotFound => String::from_str("could not open workbook"),
            EngineError::Validation => String::from_str("different number of information"),
            EngineError::ParseDate => String::from_str("date str is not valid"),
            EngineError::ParseAccountingDate => String::from_str("accounting date is not valid"),
            EngineError::ParseInterestDate => String::from_str("interest date is not valid"),
            EngineError::ParseDebit => String::from_str("could not parse the debit amount"),
            EngineError::ParseCredit => String::from_str("could not parse the credit amount"),
            EngineError::RowLimit => String::from_str(
                "sheet rows never reach an empty terminator",
            ),
        }
    }
}

} // verus!
