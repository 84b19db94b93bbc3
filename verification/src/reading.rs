//! Reading passes over the cell store: the empty-cell terminator scan,
//! the account directory, the category rule sheet, and ingestion of
//! ledger-shaped and bank-shaped sources into a batch.

use vstd::prelude::*;
use crate::accounting::{Account, AccountV, Bank};
use crate::amounts::{amount_cents, parse_amount, parses_amount_i64};
use crate::bank::SBanken;
use crate::batch::{columns_view, RecordV, WorkbookInfo};
use crate::dates::{get_delimiter, spec_delimiter, spec_parse_date, string_to_date, Date};
use crate::errors::EngineError;
use crate::sheet::{cell_formatted_value, cell_value, sheet_formatted, sheet_values};
use crate::text::{contains_seq, digits_val, parse_u64, parses_u64, str_contains, u64_body};
use umya_spreadsheet::Worksheet;
use vstd::string::StringExecFns;

verus! {

/// The cell contents of one worksheet, by (column, row).
pub type CellMap = Map<(u32, u32), Seq<char>>;

/// The first row at or after `row` whose cell in `col` is empty, when one
/// exists within the row index space.
pub open spec fn first_blank_row(vals: CellMap, col: u32, row: u32) -> Option<u32>
    decreases u32::MAX - row,
{
    if vals[(col, row)].len() == 0 {
        Some(row)
    } else if row == u32::MAX {
        None
    } else {
        first_blank_row(vals, col, (row + 1) as u32)
    }
}

pub proof fn lemma_first_blank_row_is(vals: CellMap, col: u32, start: u32, r: u32)
    requires
        start <= r,
        vals[(col, r)].len() == 0,
        forall|q: u32| start <= q < r ==> (#[trigger] vals[(col, q)]).len() != 0,
    ensures
        first_blank_row(vals, col, start) == Some(r),
    decreases r - start,
{
    if start < r {
        assert(vals[(col, start)].len() != 0);
        lemma_first_blank_row_is(vals, col, (start + 1) as u32, r);
    }
}

pub proof fn lemma_first_blank_row_none(vals: CellMap, col: u32, start: u32)
    requires
        forall|q: u32| start <= q ==> (#[trigger] vals[(col, q)]).len() != 0,
    ensures
        first_blank_row(vals, col, start) is None,
    decreases u32::MAX - start,
{
    assert(vals[(col, start)].len() != 0);
    if start < u32::MAX {
        lemma_first_blank_row_none(vals, col, (start + 1) as u32);
    }
}

/// The first row, from row 1, whose cell in column A is empty; one past
/// the row index space when every row is occupied there.
pub fn get_first_empty_line(sheet: &Worksheet) -> (r: u64)
    ensures
        match first_blank_row(sheet_values(*sheet), 1, 1) {
            Some(b) => r == b,
            None => r == u32::MAX as u64 + 1,
        },
        1 <= r <= u32::MAX as u64 + 1,
{
    let mut row: u32 = 1;
    loop
        invariant
            1 <= row,
            forall|q: u32|
                1 <= q < row ==> (#[trigger] sheet_values(*sheet)[(1u32, q)]).len() != 0,
        decreases u32::MAX - row,
    {
        let v = cell_value(sheet, 1, row);
        if v.as_str().is_empty() {
            proof {
                lemma_first_blank_row_is(sheet_values(*sheet), 1, 1, row);
            }
            return row as u64;
        }
        if row == u32::MAX {
            proof {
                lemma_first_blank_row_none(sheet_values(*sheet), 1, 1);
            }
            return u32::MAX as u64 + 1;
        }
        row += 1;
    }
}

/// The account directory of a sheet: names in column B, numbers in column
/// C, one account per row from row 2 until the first row whose number
/// cell is no numeral (one leading plus sign allowed, as std's `u64`
/// parse does) or whose name cell is empty.  `None` when no such
/// terminator row exists in the row index space.
pub open spec fn spec_accounts(vals: CellMap, row: u32) -> Option<Seq<AccountV>>
    decreases u32::MAX - row,
{
    if !parses_u64(vals[(3u32, row)]) || vals[(2u32, row)].len() == 0 {
        Some(Seq::<AccountV>::empty())
    } else if row == u32::MAX {
        None
    } else {
        match spec_accounts(vals, (row + 1) as u32) {
            None => None,
            Some(rest) => Some(
                seq![
                    AccountV {
                        name: vals[(2u32, row)],
                        number: digits_val(u64_body(vals[(3u32, row)])),
                    },
                ] + rest,
            ),
        }
    }
}

pub fn get_accounts(sheet: &Worksheet) -> (r: Result<Vec<Account>, EngineError>)
    ensures
        match r {
            Ok(accounts) => spec_accounts(sheet_values(*sheet), 2) == Some(accounts.deep_view()),
            Err(e) => spec_accounts(sheet_values(*sheet), 2) is None && e == EngineError::RowLimit,
        },
{
    let ghost vals = sheet_values(*sheet);
    let mut accounts: Vec<Account> = Vec::new();
    let mut line: u32 = 2;
    loop
        invariant_except_break
            vals == sheet_values(*sheet),
            2 <= line,
            match spec_accounts(vals, line) {
                None => spec_accounts(vals, 2) is None,
                Some(rest) => spec_accounts(vals, 2) == Some(accounts.deep_view() + rest),
            },
        ensures
            spec_accounts(vals, 2) == Some(accounts.deep_view()),
        decreases u32::MAX - line,
    {
        let account_name = cell_value(sheet, 2, line);
        let number_str = cell_value(sheet, 3, line);
        let account_number = match parse_u64(number_str.as_str()) {
            Some(num) => num,
            None => {
                proof {
                    assert(spec_accounts(vals, line) == Some(Seq::<AccountV>::empty()));
                    assert(accounts.deep_view() + Seq::<AccountV>::empty() =~= accounts.deep_view());
                }
                break ;
            },
        };
        if account_name.as_str().is_empty() {
            proof {
                assert(spec_accounts(vals, line) == Some(Seq::<AccountV>::empty()));
                assert(accounts.deep_view() + Seq::<AccountV>::empty() =~= accounts.deep_view());
            }
            break ;
        }
        if line == u32::MAX {
            return Err(EngineError::RowLimit);
        }
        let ghost before = accounts.deep_view();
        accounts.push(Account { name: account_name, number: account_number });
        proof {
            assert(accounts.deep_view() =~= before + seq![
                AccountV {
                    name: vals[(2u32, line)],
                    number: digits_val(u64_body(vals[(3u32, line)])),
                },
            ]);
            if spec_accounts(vals, (line + 1) as u32) is Some {
                let rest = spec_accounts(vals, (line + 1) as u32)->Some_0;
                assert(before + (seq![
                    AccountV {
                        name: vals[(2u32, line)],
                        number: digits_val(u64_body(vals[(3u32, line)])),
                    },
                ] + rest) =~= accounts.deep_view() + rest);
            }
        }
        line += 1;
    }
    proof {
        assert(accounts.deep_view() + Seq::<AccountV>::empty() =~= accounts.deep_view());
    }
    Ok(accounts)
}

/// One rule column's keyword list: the cells of rows 4 up to (not
/// including) the first blank row `stop`.
pub open spec fn column_keywords(vals: CellMap, col: u32, stop: u32) -> Seq<Seq<char>> {
    Seq::new((stop - 4) as nat, |q: int| vals[(col, (4 + q) as u32)])
}

/// The rule columns of the category sheet, read from `col` rightward until
/// the first column whose category cell (row 2) is empty.  A column whose
/// class cell (row 3) is empty contributes nothing.  Each contributing
/// column yields the rule `[category, class, keyword...]`.  While
/// `text_mode` holds and no contributing column's header (row 1) has yet
/// contained "type", rules join the text list; from the first such header
/// onward they join the type list.  `None` when the scan exhausts the
/// column or row index space.
pub open spec fn spec_collect_rules(vals: CellMap, col: u32, text_mode: bool) -> Option<
    (Seq<Seq<Seq<char>>>, Seq<Seq<Seq<char>>>),
>
    decreases u32::MAX - col,
{
    if vals[(col, 2u32)].len() == 0 {
        Some((Seq::<Seq<Seq<char>>>::empty(), Seq::<Seq<Seq<char>>>::empty()))
    } else if col == u32::MAX {
        None
    } else if vals[(col, 3u32)].len() == 0 {
        spec_collect_rules(vals, (col + 1) as u32, text_mode)
    } else {
        let new_mode = text_mode && !contains_seq(vals[(col, 1u32)], "type"@);
        match first_blank_row(vals, col, 4) {
            None => None,
            Some(stop) => {
                let rule = seq![vals[(col, 2u32)], vals[(col, 3u32)]] + column_keywords(
                    vals,
                    col,
                    stop,
                );
                match spec_collect_rules(vals, (col + 1) as u32, new_mode) {
                    None => None,
                    Some(rest) => if new_mode {
                        Some((seq![rule] + rest.0, rest.1))
                    } else {
                        Some((rest.0, seq![rule] + rest.1))
                    },
                }
            },
        }
    }
}

/// Reads the category rule sheet into the two-tier rule set; `Err` only
/// when the sheet has no empty terminator column or keyword row within
/// the index space.
pub fn get_categories(sheet: &Worksheet) -> (r: Result<crate::categories::Categories, EngineError>)
    ensures
        match r {
            Ok(cats) => spec_collect_rules(sheet_values(*sheet), 1, true) == Some(
                (cats.from_text.deep_view(), cats.from_type.deep_view()),
            ) && cats.wf(),
            Err(e) => spec_collect_rules(sheet_values(*sheet), 1, true) is None && e
                == EngineError::RowLimit,
        },
{
    let ghost vals = sheet_values(*sheet);
    let mut from_text: Vec<Vec<String>> = Vec::new();
    let mut from_type: Vec<Vec<String>> = Vec::new();
    let mut col: u32 = 1;
    let mut is_from_text = true;
    loop
        invariant_except_break
            vals == sheet_values(*sheet),
            1 <= col,
            crate::categories::rules_wf(from_text.deep_view()),
            crate::categories::rules_wf(from_type.deep_view()),
            match spec_collect_rules(vals, col, is_from_text) {
                None => spec_collect_rules(vals, 1, true) is None,
                Some(rest) => spec_collect_rules(vals, 1, true) == Some(
                    (from_text.deep_view() + rest.0, from_type.deep_view() + rest.1),
                ),
            },
        ensures
            spec_collect_rules(vals, 1, true) == Some(
                (from_text.deep_view(), from_type.deep_view()),
            ),
            crate::categories::rules_wf(from_text.deep_view()),
            crate::categories::rules_wf(from_type.deep_view()),
        decreases u32::MAX - col,
    {
        let cat = cell_value(sheet, col, 2);
        if cat.as_str().is_empty() {
            proof {
                let e = Seq::<Seq<Seq<char>>>::empty();
                assert(spec_collect_rules(vals, col, is_from_text) == Some((e, e)));
                assert(from_text.deep_view() + e =~= from_text.deep_view());
                assert(from_type.deep_view() + e =~= from_type.deep_view());
            }
            break ;
        }
        if col == u32::MAX {
            return Err(EngineError::RowLimit);
        }
        let cat_type = cell_value(sheet, col, 3);
        if cat_type.as_str().is_empty() {
            proof {
                assert(spec_collect_rules(vals, col, is_from_text) == spec_collect_rules(
                    vals,
                    (col + 1) as u32,
                    is_from_text,
                ));
            }
            col += 1;
            continue ;
        }
        let ghost entry_mode = is_from_text;
        if is_from_text {
            let header = cell_value(sheet, col, 1);
            if str_contains(header.as_str(), "type") {
                is_from_text = false;
            }
        }
        proof {
            assert(is_from_text == (entry_mode && !contains_seq(vals[(col, 1u32)], "type"@)));
        }
        let mut col_vec: Vec<String> = Vec::new();
        col_vec.push(cat);
        col_vec.push(cat_type);
        proof {
            assert(col_vec.deep_view() =~= seq![vals[(col, 2u32)], vals[(col, 3u32)]]
                + column_keywords(vals, col, 4));
        }
        let mut row: u32 = 4;
        loop
            invariant_except_break
                vals == sheet_values(*sheet),
                1 <= col < u32::MAX,
                4 <= row,
                vals[(col, 2u32)].len() != 0,
                vals[(col, 3u32)].len() != 0,
                is_from_text == (entry_mode && !contains_seq(vals[(col, 1u32)], "type"@)),
                crate::categories::rules_wf(from_text.deep_view()),
                crate::categories::rules_wf(from_type.deep_view()),
                match spec_collect_rules(vals, col, entry_mode) {
                    None => spec_collect_rules(vals, 1, true) is None,
                    Some(rest) => spec_collect_rules(vals, 1, true) == Some(
                        (from_text.deep_view() + rest.0, from_type.deep_view() + rest.1),
                    ),
                },
                col_vec.deep_view() == seq![vals[(col, 2u32)], vals[(col, 3u32)]]
                    + column_keywords(vals, col, row),
                forall|q: u32| 4 <= q < row ==> (#[trigger] vals[(col, q)]).len() != 0,
            ensures
                vals == sheet_values(*sheet),
                1 <= col < u32::MAX,
                4 <= row,
                vals[(col, 2u32)].len() != 0,
                vals[(col, 3u32)].len() != 0,
                is_from_text == (entry_mode && !contains_seq(vals[(col, 1u32)], "type"@)),
                crate::categories::rules_wf(from_text.deep_view()),
                crate::categories::rules_wf(from_type.deep_view()),
                match spec_collect_rules(vals, col, entry_mode) {
                    None => spec_collect_rules(vals, 1, true) is None,
                    Some(rest) => spec_collect_rules(vals, 1, true) == Some(
                        (from_text.deep_view() + rest.0, from_type.deep_view() + rest.1),
                    ),
                },
                first_blank_row(vals, col, 4) == Some(row),
                col_vec.deep_view() == seq![vals[(col, 2u32)], vals[(col, 3u32)]]
                    + column_keywords(vals, col, row),
            decreases u32::MAX - row,
        {
            let value = cell_value(sheet, col, row);
            if value.as_str().is_empty() {
                proof {
                    lemma_first_blank_row_is(vals, col, 4, row);
                }
                break ;
            }
            if row == u32::MAX {
                proof {
                    lemma_first_blank_row_none(vals, col, 4);
                    assert(spec_collect_rules(vals, col, entry_mode) is None);
                }
                return Err(EngineError::RowLimit);
            }
            let ghost keywords_before = col_vec.deep_view();
            col_vec.push(value);
            proof {
                assert(col_vec.deep_view() =~~= keywords_before.push(vals[(col, row)]));
                assert(column_keywords(vals, col, (row + 1) as u32) =~= column_keywords(
                    vals,
                    col,
                    row,
                ).push(vals[(col, row)]));
                assert((seq![vals[(col, 2u32)], vals[(col, 3u32)]] + column_keywords(
                    vals,
                    col,
                    row,
                )).push(vals[(col, row)]) =~= seq![vals[(col, 2u32)], vals[(col, 3u32)]]
                    + column_keywords(vals, col, (row + 1) as u32));
            }
            row += 1;
        }
        let ghost rule = seq![vals[(col, 2u32)], vals[(col, 3u32)]] + column_keywords(
            vals,
            col,
            row,
        );
        proof {
            assert(rule.len() >= 2);
        }
        let ghost text_before = from_text.deep_view();
        let ghost type_before = from_type.deep_view();
        if is_from_text {
            from_text.push(col_vec);
            proof {
                assert(from_text.deep_view() =~~= text_before + seq![rule]);
            }
        } else {
            from_type.push(col_vec);
            proof {
                assert(from_type.deep_view() =~~= type_before + seq![rule]);
            }
        }
        proof {
            let next = spec_collect_rules(vals, (col + 1) as u32, is_from_text);
            match next {
                None => {
                    assert(spec_collect_rules(vals, col, entry_mode) is None);
                },
                Some(rest) => {
                    if is_from_text {
                        assert(spec_collect_rules(vals, col, entry_mode) == Some(
                            (seq![rule] + rest.0, rest.1),
                        ));
                        assert(text_before + (seq![rule] + rest.0) =~= from_text.deep_view()
                            + rest.0);
                    } else {
                        assert(spec_collect_rules(vals, col, entry_mode) == Some(
                            (rest.0, seq![rule] + rest.1),
                        ));
                        assert(type_before + (seq![rule] + rest.1) =~= from_type.deep_view()
                            + rest.1);
                    }
                },
            }
        }
        col += 1;
    }
    let ghost text_dv = from_text.deep_view();
    let ghost type_dv = from_type.deep_view();
    let cats = crate::categories::Categories::new(from_text, from_type);
    proof {
        crate::batch::lemma_filter_all(text_dv, |v: Seq<Seq<char>>| v.len() >= 2);
        crate::batch::lemma_filter_all(type_dv, |v: Seq<Seq<char>>| v.len() >= 2);
    }
    Ok(cats)
}

/// One record of a ledger-shaped source at `row`: both dates from the
/// display strings of the date cells, with the delimiter auto-detected from the
/// accounting date string; the free-form columns, amounts, and the row's
/// own account column.
pub open spec fn ledger_record(fm: CellMap, vals: CellMap, row: u32) -> RecordV {
    let delim = spec_delimiter(fm[(1u32, row)]);
    RecordV {
        accounting_date: spec_parse_date(fm[(1u32, row)], delim)->Some_0,
        interest_date: spec_parse_date(fm[(2u32, row)], delim)->Some_0,
        archive_reference: vals[(3u32, row)],
        counter_account: vals[(4u32, row)],
        types: vals[(5u32, row)],
        text: vals[(6u32, row)],
        out_of_account: amount_cents(vals[(7u32, row)]),
        into_account: amount_cents(vals[(8u32, row)]),
        account: vals[(10u32, row)],
    }
}

/// A ledger-shaped source read from `row` downward until the first row
/// whose formatted accounting-date cell is empty: the record sequence in
/// sheet order, the first field error encountered, or `None` when the
/// scan exhausts the row index space.
pub open spec fn spec_read_ledger(fm: CellMap, vals: CellMap, row: u32) -> Option<
    Result<Seq<RecordV>, EngineError>,
>
    decreases u32::MAX - row,
{
    let ds = fm[(1u32, row)];
    if ds.len() == 0 {
        Some(Ok(Seq::<RecordV>::empty()))
    } else {
        let delim = spec_delimiter(ds);
        if spec_parse_date(ds, delim) is None {
            Some(Err(EngineError::ParseAccountingDate))
        } else if spec_parse_date(fm[(2u32, row)], delim) is None {
            Some(Err(EngineError::ParseInterestDate))
        } else if !parses_amount_i64(vals[(7u32, row)]) {
            Some(Err(EngineError::ParseDebit))
        } else if !parses_amount_i64(vals[(8u32, row)]) {
            Some(Err(EngineError::ParseCredit))
        } else if row == u32::MAX {
            None
        } else {
            match spec_read_ledger(fm, vals, (row + 1) as u32) {
                None => None,
                Some(Err(e)) => Some(Err(e)),
                Some(Ok(rest)) => Some(Ok(seq![ledger_record(fm, vals, row)] + rest)),
            }
        }
    }
}

/// Reads an already-categorized ledger sheet, from row 2 until the
/// empty-cell terminator, into a batch in sheet order.
pub fn get_workbook_transactions(sheet: &Worksheet) -> (r: Result<WorkbookInfo, EngineError>)
    ensures
        ({
            let sp = spec_read_ledger(sheet_formatted(*sheet), sheet_values(*sheet), 2);
            match r {
                Ok(w) => sp == Some(Ok::<Seq<RecordV>, EngineError>(w@)) && w.wf() && w.dates_wf(),
                Err(e) => (e == EngineError::RowLimit && sp is None) || (e != EngineError::RowLimit
                    && sp == Some(Err::<Seq<RecordV>, EngineError>(e))),
            }
        }),
{
    let ghost fm = sheet_formatted(*sheet);
    let ghost vals = sheet_values(*sheet);
    let mut accounting_date: Vec<Date> = Vec::new();
    let mut interest_date: Vec<Date> = Vec::new();
    let mut archive_reference: Vec<String> = Vec::new();
    let mut counter_account: Vec<String> = Vec::new();
    let mut types: Vec<String> = Vec::new();
    let mut text: Vec<String> = Vec::new();
    let mut out_of_account: Vec<i64> = Vec::new();
    let mut into_account: Vec<i64> = Vec::new();
    let mut account: Vec<String> = Vec::new();
    let mut row: u32 = 2;
    loop
        invariant_except_break
            fm == sheet_formatted(*sheet),
            vals == sheet_values(*sheet),
            2 <= row,
            interest_date@.len() == accounting_date@.len(),
            archive_reference@.len() == accounting_date@.len(),
            counter_account@.len() == accounting_date@.len(),
            types@.len() == accounting_date@.len(),
            text@.len() == accounting_date@.len(),
            out_of_account@.len() == accounting_date@.len(),
            into_account@.len() == accounting_date@.len(),
            account@.len() == accounting_date@.len(),
            forall|i: int|
                0 <= i < accounting_date@.len() ==> (#[trigger] accounting_date@[i]).wf(),
            forall|i: int| 0 <= i < interest_date@.len() ==> (#[trigger] interest_date@[i]).wf(),
            match spec_read_ledger(fm, vals, row) {
                None => spec_read_ledger(fm, vals, 2) is None,
                Some(Err(e)) => spec_read_ledger(fm, vals, 2) == Some(
                    Err::<Seq<RecordV>, EngineError>(e),
                ),
                Some(Ok(rest)) => spec_read_ledger(fm, vals, 2) == Some(
                    Ok::<Seq<RecordV>, EngineError>(
                        columns_view(
                            accounting_date@,
                            interest_date@,
                            archive_reference@,
                            counter_account@,
                            types@,
                            text@,
                            out_of_account@,
                            into_account@,
                            account@,
                        ) + rest,
                    ),
                ),
            },
        ensures
            fm == sheet_formatted(*sheet),
            vals == sheet_values(*sheet),
            interest_date@.len() == accounting_date@.len(),
            archive_reference@.len() == accounting_date@.len(),
            counter_account@.len() == accounting_date@.len(),
            types@.len() == accounting_date@.len(),
            text@.len() == accounting_date@.len(),
            out_of_account@.len() == accounting_date@.len(),
            into_account@.len() == accounting_date@.len(),
            account@.len() == accounting_date@.len(),
            forall|i: int|
                0 <= i < accounting_date@.len() ==> (#[trigger] accounting_date@[i]).wf(),
            forall|i: int| 0 <= i < interest_date@.len() ==> (#[trigger] interest_date@[i]).wf(),
            spec_read_ledger(fm, vals, 2) == Some(
                Ok::<Seq<RecordV>, EngineError>(
                    columns_view(
                        accounting_date@,
                        interest_date@,
                        archive_reference@,
                        counter_account@,
                        types@,
                        text@,
                        out_of_account@,
                        into_account@,
                        account@,
                    ),
                ),
            ),
        decreases u32::MAX - row,
    {
        let ghost partial = columns_view(
            accounting_date@,
            interest_date@,
            archive_reference@,
            counter_account@,
            types@,
            text@,
            out_of_account@,
            into_account@,
            account@,
        );
        let accounting_date_str = cell_formatted_value(sheet, 1, row);
        if accounting_date_str.as_str().is_empty() {
            proof {
                assert(partial + Seq::<RecordV>::empty() =~= partial);
            }
            break ;
        }
        let delimiter = get_delimiter(accounting_date_str.as_str());
        let ad = match string_to_date(accounting_date_str.as_str(), delimiter.as_str()) {
            Ok(d) => d,
            Err(_) => {
                return Err(EngineError::ParseAccountingDate);
            },
        };
        let interest_date_str = cell_formatted_value(sheet, 2, row);
        let id = match string_to_date(interest_date_str.as_str(), delimiter.as_str()) {
            Ok(d) => d,
            Err(_) => {
                return Err(EngineError::ParseInterestDate);
            },
        };
        let archive = cell_value(sheet, 3, row);
        let counter = cell_value(sheet, 4, row);
        let types_str = cell_value(sheet, 5, row);
        let text_str = cell_value(sheet, 6, row);
        let out_str = cell_value(sheet, 7, row);
        let out_cents = match parse_amount(out_str.as_str()) {
            Some(v) => v,
            None => {
                return Err(EngineError::ParseDebit);
            },
        };
        let into_str = cell_value(sheet, 8, row);
        let into_cents = match parse_amount(into_str.as_str()) {
            Some(v) => v,
            None => {
                return Err(EngineError::ParseCredit);
            },
        };
        let account_str = cell_value(sheet, 10, row);
        if row == u32::MAX {
            return Err(EngineError::RowLimit);
        }
        accounting_date.push(ad);
        interest_date.push(id);
        archive_reference.push(archive);
        counter_account.push(counter);
        types.push(types_str);
        text.push(text_str);
        out_of_account.push(out_cents);
        into_account.push(into_cents);
        account.push(account_str);
        proof {
            let partial2 = columns_view(
                accounting_date@,
                interest_date@,
                archive_reference@,
                counter_account@,
                types@,
                text@,
                out_of_account@,
                into_account@,
                account@,
            );
            assert(partial2 =~~= partial + seq![ledger_record(fm, vals, row)]);
            let next = spec_read_ledger(fm, vals, (row + 1) as u32);
            if next is Some && next->Some_0 is Ok {
                let rest = next->Some_0->Ok_0;
                assert(partial + (seq![ledger_record(fm, vals, row)] + rest) =~= partial2 + rest);
            }
        }
        row += 1;
    }
    let workbook = match WorkbookInfo::new(
        accounting_date,
        interest_date,
        archive_reference,
        counter_account,
        types,
        text,
        out_of_account,
        into_account,
        account,
    ) {
        Ok(wb) => wb,
        Err(e) => {
            proof {
                assert(false);
            }
            return Err(e);
        },
    };
    proof {
        assert(workbook@ =~~= columns_view(
            workbook.accounting_date@,
            workbook.interest_date@,
            workbook.archive_reference@,
            workbook.counter_account@,
            workbook.types@,
            workbook.text@,
            workbook.out_of_account@,
            workbook.into_account@,
            workbook.account@,
        ));
    }
    Ok(workbook)
}

/// Each record given the supplied owning account label.
pub open spec fn with_account(s: Seq<RecordV>, account: Seq<char>) -> Seq<RecordV> {
    s.map_values(|r: RecordV| RecordV { account: account, ..r })
}

fn reversed<T>(v: Vec<T>) -> (r: Vec<T>)
    ensures
        r@ == v@.reverse(),
{
    let ghost original = v@;
    let mut v = v;
    let mut out: Vec<T> = Vec::new();
    loop
        invariant_except_break
            v@.len() <= original.len(),
            v@ == original.take(v@.len() as int),
            out@ == original.skip(v@.len() as int).reverse(),
        ensures
            out@ == original.reverse(),
        decreases v@.len(),
    {
        let ghost vpre = v@;
        match v.pop() {
            Some(x) => {
                proof {
                    let m = vpre.len() - 1;
                    assert(v@ =~= original.take(m as int));
                    assert(x == original[m as int]);
                }
                out.push(x);
                proof {
                    let m = vpre.len() - 1;
                    assert(out@ =~= original.skip(m as int).reverse());
                }
            },
            None => {
                proof {
                    assert(original.skip(0) =~= original);
                    assert(out@ =~= original.reverse());
                }
                break ;
            },
        }
    }
    out
}

/// Ingests the transaction source of the chosen bank: the rows in source
/// order are reversed, so the oldest transaction comes first, and every
/// record is given the supplied account label.
pub fn get_transactions(sheet: &Worksheet, bank: Bank, account: &str) -> (r: Result<
    WorkbookInfo,
    EngineError,
>)
    ensures
        ({
            let sp = crate::bank::spec_read_bank(sheet_formatted(*sheet), sheet_values(*sheet), 4);
            match r {
                Ok(w) => {
                    &&& sp is Some
                    &&& sp->Some_0 is Ok
                    &&& w@ == with_account(sp->Some_0->Ok_0.reverse(), account@)
                    &&& w.wf()
                    &&& w.dates_wf()
                },
                Err(e) => (e == EngineError::RowLimit && sp is None) || (e != EngineError::RowLimit
                    && sp == Some(Err::<Seq<RecordV>, EngineError>(e))),
            }
        }),
{
    match bank {
        Bank::SBanken => {
            let sbanken = match crate::bank::SBanken::get_transactions(sheet) {
                Ok(b) => b,
                Err(e) => {
                    return Err(e);
                },
            };
            let ghost bank_records = sbanken@;
            let length = sbanken.accounting_date.len();
            let SBanken {
                accounting_date,
                interest_date,
                archive_reference,
                counter_account,
                types,
                text,
                out_of_account,
                into_account,
            } = sbanken;
            let accounting_date = reversed(accounting_date);
            let interest_date = reversed(interest_date);
            let archive_reference = reversed(archive_reference);
            let counter_account = reversed(counter_account);
            let types = reversed(types);
            let text = reversed(text);
            let out_of_account = reversed(out_of_account);
            let into_account = reversed(into_account);
            let mut account_col: Vec<String> = Vec::new();
            let mut k: usize = 0;
            while k < length
                invariant
                    k <= length,
                    account_col@.len() == k,
                    forall|i: int| 0 <= i < k ==> (#[trigger] account_col@[i])@ == account@,
                decreases length - k,
            {
                account_col.push(String::from_str(account));
                k += 1;
            }
            match WorkbookInfo::new(
                accounting_date,
                interest_date,
                archive_reference,
                counter_account,
                types,
                text,
                out_of_account,
                into_account,
                account_col,
            ) {
                Ok(info) => {
                    proof {
                        assert(info@ =~~= with_account(bank_records.reverse(), account@));
                    }
                    Ok(info)
                },
                Err(e) => {
                    proof {
                        assert(false);
                    }
                    Err(e)
                },
            }
        },
    }
}

} // verus!
