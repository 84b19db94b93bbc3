//! The tabular cell store: a trusted model of one worksheet of the
//! umya-spreadsheet crate.  Cells are addressed by (column, row), both
//! 1-based; an absent cell reads as the empty string and is not bold.

use vstd::prelude::*;

verus! {

#[verifier::external_type_specification]
#[verifier::external_body]
pub struct ExWorksheet(umya_spreadsheet::Worksheet);

/// The raw string content of every cell; empty for an absent cell.
pub uninterp spec fn sheet_values(ws: umya_spreadsheet::Worksheet) -> Map<(u32, u32), Seq<char>>;

/// The display string of every cell: the formatted value for the text
/// variants and the raw value string for every other variant; empty for
/// an absent cell.
pub uninterp spec fn sheet_formatted(ws: umya_spreadsheet::Worksheet) -> Map<(u32, u32), Seq<char>>;

/// Whether each cell's font is bold; false for an absent cell or a cell
/// without a font of its own.
pub uninterp spec fn sheet_bold(ws: umya_spreadsheet::Worksheet) -> Map<(u32, u32), bool>;

/// Relies on `Worksheet::value`: the raw string of the cell, empty when
/// the cell is absent.
#[verifier::external_body]
pub fn cell_value(ws: &umya_spreadsheet::Worksheet, col: u32, row: u32) -> (r: String)
    ensures
        r@ == sheet_values(*ws)[(col, row)],
{
    ws.value((col, row))
}

/// Relies on `Worksheet::cell`, `Cell::raw_value`, `Cell::formatted_value`
/// and `Cell::value`: the display string of the cell, empty when the cell
/// is absent.  Only the text variants enter `formatted_value`, whose path
/// for them returns the raw string at once; for the other variants the
/// raw value string is read instead, since their number-format rendering
/// can panic on admissible format codes.
#[verifier::external_body]
pub fn cell_formatted_value(ws: &umya_spreadsheet::Worksheet, col: u32, row: u32) -> (r: String)
    ensures
        r@ == sheet_formatted(*ws)[(col, row)],
{
    match ws.cell((col, row)) {
        None => String::new(),
        Some(c) => match c.raw_value() {
            umya_spreadsheet::CellRawValue::String(_) => c.formatted_value(),
            umya_spreadsheet::CellRawValue::RichText(_) => c.formatted_value(),
            _ => c.value().into_owned(),
        },
    }
}

/// Relies on `Worksheet::style`, `Style::font` and `Font::bold`: whether
/// the cell's font is bold; an absent cell falls back to the default style
/// and a style without a font is not bold.
#[verifier::external_body]
pub fn cell_is_bold(ws: &umya_spreadsheet::Worksheet, col: u32, row: u32) -> (r: bool)
    ensures
        r == sheet_bold(*ws)[(col, row)],
{
    match ws.style((col, row)).font() {
        Some(f) => f.bold(),
        None => false,
    }
}

/// Relies on `Worksheet::cell_mut` and `Cell::set_value_string`: stores
/// the string as the cell's raw value.  Every other cell keeps its value,
/// and no cell but the written one changes its boldness (a fresh cell may
/// inherit a bold column or row style).
#[verifier::external_body]
pub fn set_cell_value(ws: &mut umya_spreadsheet::Worksheet, col: u32, row: u32, value: &str)
    ensures
        sheet_values(*final(ws)) == sheet_values(*old(ws)).insert((col, row), value@),
        forall|c: u32, w: u32|
            (c != col || w != row) ==> #[trigger] sheet_bold(*final(ws))[(c, w)] == sheet_bold(
                *old(ws),
            )[(c, w)],
{
    ws.cell_mut((col, row)).set_value_string(value);
}

} // verus!
