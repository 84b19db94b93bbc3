//! A bundle of engine inputs for exercising a whole write pass at once.

use vstd::prelude::*;
use crate::batch::WorkbookInfo;
use crate::categories::Categories;

verus! {

/// Everything one append pass needs: the workbook path, the batch, the
/// rule set, and the date rendering options.
pub struct MockTransaction {
    pub path: String,
    pub info: WorkbookInfo,
    pub categories: Categories,
    pub date_delimiter: String,
    pub date_month_style: String,
    pub date_language: String,
    pub date_capitalize: bool,
}

} // verus!
