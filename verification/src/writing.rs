//! Writing passes over the cell store: appending a batch to the ledger
//! with categories assigned at write time, the gap filler, the regrouper,
//! and the date reformatter.

use vstd::prelude::*;
use crate::amounts::{format_amount, spec_amount_string, AMOUNT_LIMIT};
use crate::batch::{batch_subtract, records_wf, RecordV, WorkbookInfo};
use crate::categories::{spec_category, get_category, Categories};
use crate::dates::{date_to_string, get_month, pad4, pad4_exec, spec_date_string, spec_month};
use crate::errors::EngineError;
use crate::reading::{first_blank_row, CellMap};
use crate::sheet::{cell_is_bold, cell_value, set_cell_value, sheet_bold, sheet_values};
use umya_spreadsheet::Worksheet;

verus! {

/// The cells written for one record at `row`: the record's columns, the
/// derived net amount, the resolved category and class, and the derived
/// year and month labels.
pub open spec fn spec_write_row(
    vals: CellMap,
    row: int,
    rec: RecordV,
    rules_text: Seq<Seq<Seq<char>>>,
    rules_type: Seq<Seq<Seq<char>>>,
    delim: Seq<char>,
    style: Seq<char>,
    lang: Seq<char>,
    cap: bool,
) -> CellMap {
    let cat = spec_category(rec.text, rec.types, rules_text, rules_type);
    let r = row as u32;
    vals.insert((1u32, r), spec_date_string(rec.accounting_date, delim)).insert(
        (2u32, r),
        spec_date_string(rec.interest_date, delim),
    ).insert((3u32, r), rec.archive_reference).insert((4u32, r), rec.counter_account).insert(
        (5u32, r),
        rec.types,
    ).insert((6u32, r), rec.text).insert((7u32, r), spec_amount_string(rec.out_of_account)).insert(
        (8u32, r),
        spec_amount_string(rec.into_account),
    ).insert((9u32, r), spec_amount_string(rec.into_account - rec.out_of_account)).insert(
        (10u32, r),
        rec.account,
    ).insert((11u32, r), cat.0).insert((12u32, r), cat.1).insert(
        (13u32, r),
        pad4(rec.accounting_date.year as int),
    ).insert((14u32, r), spec_month(rec.accounting_date.month as int, style, lang, cap))
}

/// The cells written for a whole batch, one row per record from `row`
/// downward.
pub open spec fn spec_write_rows(
    vals: CellMap,
    row: int,
    recs: Seq<RecordV>,
    rules_text: Seq<Seq<Seq<char>>>,
    rules_type: Seq<Seq<Seq<char>>>,
    delim: Seq<char>,
    style: Seq<char>,
    lang: Seq<char>,
    cap: bool,
) -> CellMap
    decreases recs.len(),
{
    if recs.len() == 0 {
        vals
    } else {
        spec_write_rows(
            spec_write_row(vals, row, recs[0], rules_text, rules_type, delim, style, lang, cap),
            row + 1,
            recs.drop_first(),
            rules_text,
            rules_type,
            delim,
            style,
            lang,
            cap,
        )
    }
}

proof fn lemma_write_rows_push(
    vals: CellMap,
    row: int,
    recs: Seq<RecordV>,
    x: RecordV,
    rules_text: Seq<Seq<Seq<char>>>,
    rules_type: Seq<Seq<Seq<char>>>,
    delim: Seq<char>,
    style: Seq<char>,
    lang: Seq<char>,
    cap: bool,
)
    ensures
        spec_write_rows(vals, row, recs.push(x), rules_text, rules_type, delim, style, lang, cap)
            == spec_write_row(
            spec_write_rows(vals, row, recs, rules_text, rules_type, delim, style, lang, cap),
            row + recs.len(),
            x,
            rules_text,
            rules_type,
            delim,
            style,
            lang,
            cap,
        ),
    decreases recs.len(),
{
    if recs.len() == 0 {
        assert(recs.push(x)[0] == x);
        assert(recs.push(x).drop_first() =~= Seq::<RecordV>::empty());
        let w1 = spec_write_row(vals, row, x, rules_text, rules_type, delim, style, lang, cap);
        assert(spec_write_rows(vals, row, recs.push(x), rules_text, rules_type, delim, style, lang, cap)
            == spec_write_rows(
            w1,
            row + 1,
            recs.push(x).drop_first(),
            rules_text,
            rules_type,
            delim,
            style,
            lang,
            cap,
        ));
        assert(spec_write_rows(
            w1,
            row + 1,
            Seq::<RecordV>::empty(),
            rules_text,
            rules_type,
            delim,
            style,
            lang,
            cap,
        ) == w1);
        assert(spec_write_rows(vals, row, recs, rules_text, rules_type, delim, style, lang, cap)
            == vals);
    } else {
        assert(recs.push(x)[0] == recs[0]);
        assert(recs.push(x).drop_first() =~= recs.drop_first().push(x));
        let w0 = spec_write_row(vals, row, recs[0], rules_text, rules_type, delim, style, lang, cap);
        assert(spec_write_rows(vals, row, recs.push(x), rules_text, rules_type, delim, style, lang, cap)
            == spec_write_rows(
            w0,
            row + 1,
            recs.drop_first().push(x),
            rules_text,
            rules_type,
            delim,
            style,
            lang,
            cap,
        ));
        assert(spec_write_rows(vals, row, recs, rules_text, rules_type, delim, style, lang, cap)
            == spec_write_rows(
            w0,
            row + 1,
            recs.drop_first(),
            rules_text,
            rules_type,
            delim,
            style,
            lang,
            cap,
        ));
        lemma_write_rows_push(
            w0,
            row + 1,
            recs.drop_first(),
            x,
            rules_text,
            rules_type,
            delim,
            style,
            lang,
            cap,
        );
    }
}

proof fn lemma_write_rows_untouched(
    vals: CellMap,
    row: int,
    recs: Seq<RecordV>,
    rules_text: Seq<Seq<Seq<char>>>,
    rules_type: Seq<Seq<Seq<char>>>,
    delim: Seq<char>,
    style: Seq<char>,
    lang: Seq<char>,
    cap: bool,
    c: u32,
    w: u32,
)
    requires
        1 <= row,
        row + recs.len() <= u32::MAX as int + 1,
        !(1 <= c <= 14 && row <= w < row + recs.len()),
    ensures
        spec_write_rows(vals, row, recs, rules_text, rules_type, delim, style, lang, cap)[(c, w)]
            == vals[(c, w)],
    decreases recs.len(),
{
    if recs.len() > 0 {
        let w0 = spec_write_row(vals, row, recs[0], rules_text, rules_type, delim, style, lang, cap);
        assert(w0[(c, w)] == vals[(c, w)]);
        lemma_write_rows_untouched(
            w0,
            row + 1,
            recs.drop_first(),
            rules_text,
            rules_type,
            delim,
            style,
            lang,
            cap,
            c,
            w,
        );
    }
}

/// Law: after an append, the row holding record `i` carries that record's
/// text and account, and exactly the label pair the rule set resolves for
/// the record — categories are assigned at write time.
pub proof fn lemma_write_rows_categorize(
    vals: CellMap,
    row: int,
    recs: Seq<RecordV>,
    rules_text: Seq<Seq<Seq<char>>>,
    rules_type: Seq<Seq<Seq<char>>>,
    delim: Seq<char>,
    style: Seq<char>,
    lang: Seq<char>,
    cap: bool,
    i: int,
)
    requires
        0 <= i < recs.len(),
        1 <= row,
        row + recs.len() <= u32::MAX as int + 1,
    ensures
        ({
            let out = spec_write_rows(vals, row, recs, rules_text, rules_type, delim, style, lang, cap);
            let r = (row + i) as u32;
            let cat = spec_category(recs[i].text, recs[i].types, rules_text, rules_type);
            &&& out[(6u32, r)] == recs[i].text
            &&& out[(10u32, r)] == recs[i].account
            &&& out[(11u32, r)] == cat.0
            &&& out[(12u32, r)] == cat.1
        }),
    decreases i,
{
    let w0 = spec_write_row(vals, row, recs[0], rules_text, rules_type, delim, style, lang, cap);
    if i == 0 {
        lemma_write_rows_untouched(
            w0,
            row + 1,
            recs.drop_first(),
            rules_text,
            rules_type,
            delim,
            style,
            lang,
            cap,
            6,
            row as u32,
        );
        lemma_write_rows_untouched(
            w0,
            row + 1,
            recs.drop_first(),
            rules_text,
            rules_type,
            delim,
            style,
            lang,
            cap,
            10,
            row as u32,
        );
        lemma_write_rows_untouched(
            w0,
            row + 1,
            recs.drop_first(),
            rules_text,
            rules_type,
            delim,
            style,
            lang,
            cap,
            11,
            row as u32,
        );
        lemma_write_rows_untouched(
            w0,
            row + 1,
            recs.drop_first(),
            rules_text,
            rules_type,
            delim,
            style,
            lang,
            cap,
            12,
            row as u32,
        );
    } else {
        assert(recs.drop_first()[i - 1] == recs[i]);
        lemma_write_rows_categorize(
            w0,
            row + 1,
            recs.drop_first(),
            rules_text,
            rules_type,
            delim,
            style,
            lang,
            cap,
            i - 1,
        );
    }
}

/// The row where appending starts: the first empty line of column A, or
/// one past the row index space when there is none.
pub open spec fn append_start(vals: CellMap) -> int {
    match first_blank_row(vals, 1, 1) {
        Some(b) => b as int,
        None => u32::MAX as int + 1,
    }
}

/// Appends the batch to the ledger sheet, one row per record starting at
/// the first empty line: the record's columns, the net amount, the
/// category resolved by the rule set, and the year and month labels.
/// Fails, writing nothing, only when the rows do not fit the row index
/// space.
pub fn write(
    sheet: &mut Worksheet,
    info: WorkbookInfo,
    categories: &Categories,
    date_delimiter: &str,
    date_month_style: &str,
    date_language: &str,
    date_capitalize: &bool,
) -> (r: Result<(), EngineError>)
    requires
        info.wf(),
        records_wf(info@),
        categories.wf(),
        date_language@ == "norsk"@ || date_language@ == "english"@,
    ensures
        ({
            let vals0 = sheet_values(*old(sheet));
            let start = append_start(vals0);
            match r {
                Ok(()) => {
                    &&& start + info@.len() <= u32::MAX as int + 1
                    &&& sheet_values(*final(sheet)) == spec_write_rows(
                        vals0,
                        start,
                        info@,
                        categories.from_text.deep_view(),
                        categories.from_type.deep_view(),
                        date_delimiter@,
                        date_month_style@,
                        date_language@,
                        *date_capitalize,
                    )
                    &&& forall|c: u32, w: u32|
                        !(1 <= c <= 14 && start <= w < start + info@.len())
                            ==> #[trigger] sheet_bold(*final(sheet))[(c, w)] == sheet_bold(
                            *old(sheet),
                        )[(c, w)]
                },
                Err(e) => {
                    &&& e == EngineError::RowLimit
                    &&& sheet_values(*final(sheet)) == vals0
                    &&& sheet_bold(*final(sheet)) == sheet_bold(*old(sheet))
                    &&& start + info@.len() > u32::MAX as int + 1
                },
            }
        }),
{
    let ghost vals0 = sheet_values(*sheet);
    let ghost bold0 = sheet_bold(*sheet);
    let ghost rules_text = categories.from_text.deep_view();
    let ghost rules_type = categories.from_type.deep_view();
    let first = crate::reading::get_first_empty_line(sheet);
    let n = info.accounting_date.len();
    if n as u64 > u32::MAX as u64 || first + n as u64 > u32::MAX as u64 + 1 {
        return Err(EngineError::RowLimit);
    }
    let mut i: usize = 0;
    while i < n
        invariant
            info.wf(),
            records_wf(info@),
            categories.wf(),
            date_language@ == "norsk"@ || date_language@ == "english"@,
            rules_text == categories.from_text.deep_view(),
            rules_type == categories.from_type.deep_view(),
            n == info.accounting_date@.len(),
            i <= n,
            1 <= first,
            first + n as u64 <= u32::MAX as u64 + 1,
            sheet_values(*sheet) == spec_write_rows(
                vals0,
                first as int,
                info@.take(i as int),
                rules_text,
                rules_type,
                date_delimiter@,
                date_month_style@,
                date_language@,
                *date_capitalize,
            ),
            forall|c: u32, w: u32|
                !(1 <= c <= 14 && first <= w < first + i) ==> #[trigger] sheet_bold(*sheet)[(
                    c,
                    w,
                )] == bold0[(c, w)],
        decreases n - i,
    {
        let ghost before = sheet_values(*sheet);
        let ghost rec = info@[i as int];
        let row: u32 = (first + i as u64) as u32;
        let accounting_date_str = date_to_string(info.accounting_date[i], date_delimiter);
        set_cell_value(sheet, 1, row, accounting_date_str.as_str());
        let interest_date_str = date_to_string(info.interest_date[i], date_delimiter);
        set_cell_value(sheet, 2, row, interest_date_str.as_str());
        set_cell_value(sheet, 3, row, info.archive_reference[i].as_str());
        set_cell_value(sheet, 4, row, info.counter_account[i].as_str());
        set_cell_value(sheet, 5, row, info.types[i].as_str());
        set_cell_value(sheet, 6, row, info.text[i].as_str());
        let out_str = format_amount(info.out_of_account[i]);
        set_cell_value(sheet, 7, row, out_str.as_str());
        let into_str = format_amount(info.into_account[i]);
        set_cell_value(sheet, 8, row, into_str.as_str());
        let amount: i64 = info.into_account[i] - info.out_of_account[i];
        let amount_str = format_amount(amount);
        set_cell_value(sheet, 9, row, amount_str.as_str());
        set_cell_value(sheet, 10, row, info.account[i].as_str());
        let category = get_category(info.text[i].as_str(), info.types[i].as_str(), categories);
        set_cell_value(sheet, 11, row, category.0.as_str());
        set_cell_value(sheet, 12, row, category.1.as_str());
        let year_str = pad4_exec(info.accounting_date[i].year);
        set_cell_value(sheet, 13, row, year_str.as_str());
        let month = get_month(
            info.accounting_date[i].month,
            date_month_style,
            date_language,
            date_capitalize,
        );
        set_cell_value(sheet, 14, row, month.as_str());
        proof {
            assert(sheet_values(*sheet) == spec_write_row(
                before,
                row as int,
                rec,
                rules_text,
                rules_type,
                date_delimiter@,
                date_month_style@,
                date_language@,
                *date_capitalize,
            ));
            assert(info@.take(i + 1) =~= info@.take(i as int).push(rec));
            lemma_write_rows_push(
                vals0,
                first as int,
                info@.take(i as int),
                rec,
                rules_text,
                rules_type,
                date_delimiter@,
                date_month_style@,
                date_language@,
                *date_capitalize,
            );
        }
        i += 1;
    }
    proof {
        assert(info@.take(n as int) =~= info@);
    }
    Ok(())
}

/// Ingests the bank source, drops the records already present in the
/// ledger, and appends the remainder with categories assigned at write
/// time.  Each stage's error propagates; nothing is written on failure.
pub fn write_to_workbook(
    sheet: &mut Worksheet,
    transactions: &Worksheet,
    bank: crate::accounting::Bank,
    account: &str,
    categories: &Categories,
    date_delimiter: &str,
    date_month_style: &str,
    date_language: &str,
    date_capitalize: &bool,
) -> (r: Result<(), EngineError>)
    requires
        categories.wf(),
        date_language@ == "norsk"@ || date_language@ == "english"@,
    ensures
        ({
            let bank_sp = crate::bank::spec_read_bank(
                crate::sheet::sheet_formatted(*transactions),
                sheet_values(*transactions),
                4,
            );
            let ledger_sp = crate::reading::spec_read_ledger(
                crate::sheet::sheet_formatted(*old(sheet)),
                sheet_values(*old(sheet)),
                2,
            );
            let vals0 = sheet_values(*old(sheet));
            let start = append_start(vals0);
            match r {
                Ok(()) => {
                    &&& bank_sp is Some && bank_sp->Some_0 is Ok
                    &&& ledger_sp is Some && ledger_sp->Some_0 is Ok
                    &&& ({
                        let remaining = batch_subtract(
                            crate::reading::with_account(
                                bank_sp->Some_0->Ok_0.reverse(),
                                account@,
                            ),
                            ledger_sp->Some_0->Ok_0,
                        );
                        &&& start + remaining.len() <= u32::MAX as int + 1
                        &&& sheet_values(*final(sheet)) == spec_write_rows(
                            vals0,
                            start,
                            remaining,
                            categories.from_text.deep_view(),
                            categories.from_type.deep_view(),
                            date_delimiter@,
                            date_month_style@,
                            date_language@,
                            *date_capitalize,
                        )
                    })
                },
                Err(e) => sheet_values(*final(sheet)) == vals0 && ((!(bank_sp is Some
                    && bank_sp->Some_0 is Ok) && ((e == EngineError::RowLimit && bank_sp is None)
                    || (e != EngineError::RowLimit && bank_sp == Some(
                    Err::<Seq<RecordV>, EngineError>(e),
                )))) || (bank_sp is Some && bank_sp->Some_0 is Ok && !(ledger_sp is Some
                    && ledger_sp->Some_0 is Ok) && ((e == EngineError::RowLimit && ledger_sp
                    is None) || (e != EngineError::RowLimit && ledger_sp == Some(
                    Err::<Seq<RecordV>, EngineError>(e),
                )))) || (bank_sp is Some && bank_sp->Some_0 is Ok && ledger_sp is Some
                    && ledger_sp->Some_0 is Ok && e == EngineError::RowLimit && start
                    + batch_subtract(
                    crate::reading::with_account(bank_sp->Some_0->Ok_0.reverse(), account@),
                    ledger_sp->Some_0->Ok_0,
                ).len() > u32::MAX as int + 1)),
            }
        }),
{
    let transaction_info = match crate::reading::get_transactions(transactions, bank, account) {
        Ok(t) => t,
        Err(e) => {
            return Err(e);
        },
    };
    let workbook_info = match crate::reading::get_workbook_transactions(sheet) {
        Ok(w) => w,
        Err(e) => {
            return Err(e);
        },
    };
    proof {
        crate::bank::lemma_read_bank_wf(
            crate::sheet::sheet_formatted(*transactions),
            sheet_values(*transactions),
            4,
        );
        let bank_records = crate::bank::spec_read_bank(
            crate::sheet::sheet_formatted(*transactions),
            sheet_values(*transactions),
            4,
        )->Some_0->Ok_0;
        let incoming = crate::reading::with_account(bank_records.reverse(), account@);
        assert forall|i: int|
            0 <= i < incoming.len() implies {
            &&& (#[trigger] incoming[i]).accounting_date.wf()
            &&& incoming[i].interest_date.wf()
            &&& -AMOUNT_LIMIT <= incoming[i].out_of_account <= AMOUNT_LIMIT
            &&& -AMOUNT_LIMIT <= incoming[i].into_account <= AMOUNT_LIMIT
        } by {
            assert(bank_records.reverse()[i] == bank_records[bank_records.len() - 1 - i]);
        }
        assert(records_wf(incoming));
        crate::batch::lemma_subtract_preserves_wf(incoming, workbook_info@);
    }
    let transaction_info = crate::batch::remove_duplicates(transaction_info, workbook_info);
    write(
        sheet,
        transaction_info,
        categories,
        date_delimiter,
        date_month_style,
        date_language,
        date_capitalize,
    )
}

/// The first acceptable neighbour in the scan window `[r, end)`: before
/// any empty-date row, a row that already has a category and whose net
/// amount offsets `row_val` within `margin`, both bounds inclusive.
pub open spec fn window_match(vals: CellMap, row_val: int, margin: int, r: int, end: int) -> Option<
    u32,
>
    decreases end - r,
{
    if r >= end || r > u32::MAX {
        None
    } else {
        let rr = r as u32;
        if vals[(1u32, rr)].len() == 0 {
            None
        } else if vals[(11u32, rr)].len() == 0 {
            window_match(vals, row_val, margin, r + 1, end)
        } else if !crate::amounts::parses_amount_i64(vals[(9u32, rr)]) {
            window_match(vals, row_val, margin, r + 1, end)
        } else if row_val - margin <= -crate::amounts::amount_cents(vals[(9u32, rr)])
            && -crate::amounts::amount_cents(vals[(9u32, rr)]) <= row_val + margin {
            Some(rr)
        } else {
            window_match(vals, row_val, margin, r + 1, end)
        }
    }
}

/// One gap-fill step: a row that has no category yet and a parsable net
/// amount copies the category and class of its first acceptable
/// neighbour in the window from `max(1, row - range)` to `row + range`,
/// both ends inclusive; any other row is left alone.
pub open spec fn spec_fill_row(vals: CellMap, row: u32, range: int, margin: int) -> CellMap {
    if vals[(11u32, row)].len() != 0 {
        vals
    } else if !crate::amounts::parses_amount_i64(vals[(9u32, row)]) {
        vals
    } else {
        let rv = crate::amounts::amount_cents(vals[(9u32, row)]);
        let start = if row - range < 1 {
            1int
        } else {
            row - range
        };
        match window_match(vals, rv, margin, start, row + range + 1) {
            None => vals,
            Some(rr) => vals.insert((11u32, row), vals[(11u32, rr)]).insert(
                (12u32, row),
                vals[(12u32, rr)],
            ),
        }
    }
}

/// The gap-fill pass from `row` until the empty-date terminator, one
/// step per row in ascending order; `None` when the walk exhausts the
/// row index space.
pub open spec fn spec_fill(vals: CellMap, row: u32, range: int, margin: int) -> Option<CellMap>
    decreases u32::MAX - row,
{
    if vals[(1u32, row)].len() == 0 {
        Some(vals)
    } else if row == u32::MAX {
        None
    } else {
        spec_fill(spec_fill_row(vals, row, range, margin), (row + 1) as u32, range, margin)
    }
}

/// A row that can serve as the offsetting neighbour of a row whose net
/// amount is `row_val`: it already carries a category, its net cell
/// parses, and its negated net amount lies within `margin` of `row_val`,
/// both bounds inclusive.
pub open spec fn acceptable_neighbor(vals: CellMap, row_val: int, margin: int, r: u32) -> bool {
    &&& vals[(11u32, r)].len() != 0
    &&& crate::amounts::parses_amount_i64(vals[(9u32, r)])
    &&& row_val - margin <= -crate::amounts::amount_cents(vals[(9u32, r)])
    &&& -crate::amounts::amount_cents(vals[(9u32, r)]) <= row_val + margin
}

proof fn lemma_window_match_none(vals: CellMap, row_val: int, margin: int, r: int, end: int)
    requires
        0 <= r,
        forall|q: u32| r <= q < end ==> !acceptable_neighbor(vals, row_val, margin, q),
    ensures
        window_match(vals, row_val, margin, r, end) is None,
    decreases end - r,
{
    if r >= end || r > u32::MAX {
    } else {
        assert(!acceptable_neighbor(vals, row_val, margin, r as u32));
        lemma_window_match_none(vals, row_val, margin, r + 1, end);
    }
}

proof fn lemma_window_match_finds(
    vals: CellMap,
    row_val: int,
    margin: int,
    r: int,
    end: int,
    n: u32,
)
    requires
        0 <= r <= n < end,
        forall|q: u32| r <= q <= n ==> (#[trigger] vals[(1u32, q)]).len() != 0,
        acceptable_neighbor(vals, row_val, margin, n),
        forall|q: u32| r <= q < n ==> !acceptable_neighbor(vals, row_val, margin, q),
    ensures
        window_match(vals, row_val, margin, r, end) == Some(n),
    decreases n - r,
{
    assert(vals[(1u32, r as u32)].len() != 0);
    if r == n {
    } else {
        assert(!acceptable_neighbor(vals, row_val, margin, r as u32));
        lemma_window_match_finds(vals, row_val, margin, r + 1, end, n);
    }
}

/// Law: a gap-fill step leaves a row's cells alone when no row of its
/// window — from `max(1, row - range)` to `row + range`, both inclusive —
/// is an acceptable offsetting neighbour; outside the window or the
/// margin, no match ever fires.
pub proof fn lemma_fill_row_no_neighbor(vals: CellMap, row: u32, range: int, margin: int)
    requires
        forall|q: u32|
            row - range <= q <= row + range ==> !acceptable_neighbor(
                vals,
                crate::amounts::amount_cents(vals[(9u32, row)]),
                margin,
                q,
            ),
    ensures
        spec_fill_row(vals, row, range, margin) == vals,
{
    if vals[(11u32, row)].len() != 0 {
    } else if !crate::amounts::parses_amount_i64(vals[(9u32, row)]) {
    } else {
        let rv = crate::amounts::amount_cents(vals[(9u32, row)]);
        let start = if row - range < 1 {
            1int
        } else {
            row - range
        };
        assert forall|q: u32| start <= q < row + range + 1 implies !acceptable_neighbor(
            vals,
            rv,
            margin,
            q,
        ) by {
            assert(row - range <= q <= row + range);
        }
        lemma_window_match_none(vals, rv, margin, start, row + range + 1);
    }
}

/// Law: when the first acceptable neighbour of an uncategorized row with
/// a parsable net amount sits at row `n` of its window, with no
/// empty-date row at or before it, the fill step copies exactly that
/// neighbour's category and class onto the row.
pub proof fn lemma_fill_row_copies_first(
    vals: CellMap,
    row: u32,
    range: int,
    margin: int,
    n: u32,
)
    requires
        vals[(11u32, row)].len() == 0,
        crate::amounts::parses_amount_i64(vals[(9u32, row)]),
        ({
            let rv = crate::amounts::amount_cents(vals[(9u32, row)]);
            let start = if row - range < 1 {
                1int
            } else {
                row - range
            };
            &&& start <= n <= row + range
            &&& forall|q: u32| start <= q <= n ==> (#[trigger] vals[(1u32, q)]).len() != 0
            &&& acceptable_neighbor(vals, rv, margin, n)
            &&& forall|q: u32| start <= q < n ==> !acceptable_neighbor(vals, rv, margin, q)
        }),
    ensures
        spec_fill_row(vals, row, range, margin) == vals.insert(
            (11u32, row),
            vals[(11u32, n)],
        ).insert((12u32, row), vals[(12u32, n)]),
{
    let rv = crate::amounts::amount_cents(vals[(9u32, row)]);
    let start = if row - range < 1 {
        1int
    } else {
        row - range
    };
    lemma_window_match_finds(vals, rv, margin, start, row + range + 1, n);
}

/// Back-fills categories for uncategorized rows from an offsetting
/// neighbour at most `range` rows away, both window ends inclusive, whose
/// net amount differs from the negated row amount by at most `margin`
/// whole currency units.
pub fn fill_empty_rows(sheet: &mut Worksheet, range: u32, margin: u32) -> (r: Result<
    (),
    EngineError,
>)
    ensures
        ({
            let sp = spec_fill(sheet_values(*old(sheet)), 2, range as int, margin as int * 100);
            match r {
                Ok(()) => sp == Some(sheet_values(*final(sheet))),
                Err(e) => e == EngineError::RowLimit && sp is None,
            }
        }),
        forall|c: u32, w: u32|
            (c != 11 && c != 12) ==> #[trigger] sheet_bold(*final(sheet))[(c, w)] == sheet_bold(
                *old(sheet),
            )[(c, w)],
{
    let ghost vals0 = sheet_values(*sheet);
    let ghost bold0 = sheet_bold(*sheet);
    let margin_cents: i64 = (margin as i64) * 100;
    let ghost rg = range as int;
    let mut row: u32 = 2;
    loop
        invariant_except_break
            vals0 == sheet_values(*old(sheet)),
            bold0 == sheet_bold(*old(sheet)),
            2 <= row,
            margin_cents == margin as int * 100,
            rg == range as int,
            spec_fill(sheet_values(*sheet), row, rg, margin_cents as int) == spec_fill(
                vals0,
                2,
                rg,
                margin_cents as int,
            ),
            forall|c: u32, w: u32|
                (c != 11 && c != 12) ==> #[trigger] sheet_bold(*sheet)[(c, w)] == bold0[(c, w)],
        ensures
            vals0 == sheet_values(*old(sheet)),
            bold0 == sheet_bold(*old(sheet)),
            spec_fill(vals0, 2, rg, margin_cents as int) == Some(sheet_values(*sheet)),
            rg == range as int,
            margin_cents == margin as int * 100,
            forall|c: u32, w: u32|
                (c != 11 && c != 12) ==> #[trigger] sheet_bold(*sheet)[(c, w)] == bold0[(c, w)],
        decreases u32::MAX - row,
    {
        let ghost cur = sheet_values(*sheet);
        let a = cell_value(sheet, 1, row);
        if a.as_str().is_empty() {
            break ;
        }
        if row == u32::MAX {
            return Err(EngineError::RowLimit);
        }
        let group = cell_value(sheet, 11, row);
        if !group.as_str().is_empty() {
            proof {
                assert(spec_fill_row(cur, row, rg, margin_cents as int) == cur);
            }
            row += 1;
            continue ;
        }
        let row_value_str = cell_value(sheet, 9, row);
        let row_value = match crate::amounts::parse_amount(row_value_str.as_str()) {
            Some(v) => v,
            None => {
                proof {
                    assert(spec_fill_row(cur, row, rg, margin_cents as int) == cur);
                }
                row += 1;
                continue ;
            },
        };
        let start: u32 = if row > range {
            row - range
        } else {
            1
        };
        let end: u64 = row as u64 + range as u64 + 1;
        let mut rr: u64 = start as u64;
        let mut found: bool = false;
        let mut found_row: u32 = 0;
        loop
            invariant_except_break
                cur == sheet_values(*sheet),
                start as u64 <= rr,
                !found,
                window_match(cur, row_value as int, margin_cents as int, start as int, end as int)
                    == window_match(
                    cur,
                    row_value as int,
                    margin_cents as int,
                    rr as int,
                    end as int,
                ),
                -crate::amounts::AMOUNT_LIMIT <= row_value <= crate::amounts::AMOUNT_LIMIT,
                margin_cents == margin as int * 100,
            ensures
                cur == sheet_values(*sheet),
                if found {
                    window_match(
                        cur,
                        row_value as int,
                        margin_cents as int,
                        start as int,
                        end as int,
                    ) == Some(found_row)
                } else {
                    window_match(
                        cur,
                        row_value as int,
                        margin_cents as int,
                        start as int,
                        end as int,
                    ) is None
                },
            decreases end - rr,
        {
            if rr >= end || rr > u32::MAX as u64 {
                break ;
            }
            let rru = rr as u32;
            let neighbor_date = cell_value(sheet, 1, rru);
            if neighbor_date.as_str().is_empty() {
                break ;
            }
            let neighbor_group = cell_value(sheet, 11, rru);
            if neighbor_group.as_str().is_empty() {
                rr += 1;
                continue ;
            }
            let neighbor_value_str = cell_value(sheet, 9, rru);
            let nv = match crate::amounts::parse_amount(neighbor_value_str.as_str()) {
                Some(v) => v,
                None => {
                    rr += 1;
                    continue ;
                },
            };
            if row_value - margin_cents <= -nv && -nv <= row_value + margin_cents {
                found = true;
                found_row = rru;
                break ;
            }
            rr += 1;
        }
        if found {
            let g = cell_value(sheet, 11, found_row);
            set_cell_value(sheet, 11, row, g.as_str());
            let e = cell_value(sheet, 12, found_row);
            set_cell_value(sheet, 12, row, e.as_str());
            proof {
                assert(sheet_values(*sheet) == spec_fill_row(cur, row, rg, margin_cents as int));
            }
        } else {
            proof {
                assert(spec_fill_row(cur, row, rg, margin_cents as int) == cur);
            }
        }
        row += 1;
    }
    Ok(())
}

/// One regroup step: a row whose category cell is bold keeps its labels;
/// otherwise the rule match runs on the row's text and type, and both
/// labels are overwritten only when it produces two non-empty labels.
pub open spec fn spec_regroup_row(
    vals: CellMap,
    bold: Map<(u32, u32), bool>,
    row: u32,
    rules_text: Seq<Seq<Seq<char>>>,
    rules_type: Seq<Seq<Seq<char>>>,
) -> CellMap {
    if vals[(11u32, row)].len() != 0 && bold[(11u32, row)] {
        vals
    } else {
        let cat = spec_category(vals[(6u32, row)], vals[(5u32, row)], rules_text, rules_type);
        if cat.0.len() == 0 || cat.1.len() == 0 {
            vals
        } else {
            vals.insert((11u32, row), cat.0).insert((12u32, row), cat.1)
        }
    }
}

/// The regroup pass from `row`: it stops at the first row with an empty
/// date or with a manual note in column O, and recategorizes every other
/// row that is not pinned by a bold category cell.
pub open spec fn spec_regroup(
    vals: CellMap,
    bold: Map<(u32, u32), bool>,
    row: u32,
    rules_text: Seq<Seq<Seq<char>>>,
    rules_type: Seq<Seq<Seq<char>>>,
) -> Option<CellMap>
    decreases u32::MAX - row,
{
    if vals[(1u32, row)].len() == 0 {
        Some(vals)
    } else if vals[(15u32, row)].len() != 0 {
        Some(vals)
    } else if row == u32::MAX {
        None
    } else {
        spec_regroup(
            spec_regroup_row(vals, bold, row, rules_text, rules_type),
            bold,
            (row + 1) as u32,
            rules_text,
            rules_type,
        )
    }
}

/// Re-applies the rule match to every row not pinned by hand; a manual
/// note in column O ends the whole pass.
pub fn re_group(sheet: &mut Worksheet, categories: &Categories) -> (r: Result<(), EngineError>)
    requires
        categories.wf(),
    ensures
        ({
            let sp = spec_regroup(
                sheet_values(*old(sheet)),
                sheet_bold(*old(sheet)),
                2,
                categories.from_text.deep_view(),
                categories.from_type.deep_view(),
            );
            match r {
                Ok(()) => sp == Some(sheet_values(*final(sheet))),
                Err(e) => e == EngineError::RowLimit && sp is None,
            }
        }),
        forall|c: u32, w: u32|
            (c != 11 && c != 12) ==> #[trigger] sheet_bold(*final(sheet))[(c, w)] == sheet_bold(
                *old(sheet),
            )[(c, w)],
{
    let ghost vals0 = sheet_values(*sheet);
    let ghost bold0 = sheet_bold(*sheet);
    let ghost rules_text = categories.from_text.deep_view();
    let ghost rules_type = categories.from_type.deep_view();
    let mut row: u32 = 2;
    loop
        invariant_except_break
            vals0 == sheet_values(*old(sheet)),
            bold0 == sheet_bold(*old(sheet)),
            2 <= row,
            categories.wf(),
            rules_text == categories.from_text.deep_view(),
            rules_type == categories.from_type.deep_view(),
            spec_regroup(sheet_values(*sheet), bold0, row, rules_text, rules_type) == spec_regroup(
                vals0,
                bold0,
                2,
                rules_text,
                rules_type,
            ),
            forall|c: u32, w: u32|
                ((c != 11 && c != 12) || w >= row) ==> #[trigger] sheet_bold(*sheet)[(c, w)]
                    == bold0[(c, w)],
        ensures
            vals0 == sheet_values(*old(sheet)),
            bold0 == sheet_bold(*old(sheet)),
            spec_regroup(vals0, bold0, 2, rules_text, rules_type) == Some(sheet_values(*sheet)),
            forall|c: u32, w: u32|
                (c != 11 && c != 12) ==> #[trigger] sheet_bold(*sheet)[(c, w)] == bold0[(c, w)],
        decreases u32::MAX - row,
    {
        let ghost cur = sheet_values(*sheet);
        let a = cell_value(sheet, 1, row);
        if a.as_str().is_empty() {
            break ;
        }
        let note = cell_value(sheet, 15, row);
        if !note.as_str().is_empty() {
            break ;
        }
        if row == u32::MAX {
            return Err(EngineError::RowLimit);
        }
        let group = cell_value(sheet, 11, row);
        let pinned = if !group.as_str().is_empty() {
            cell_is_bold(sheet, 11, row)
        } else {
            false
        };
        if pinned {
            proof {
                assert(spec_regroup_row(cur, bold0, row, rules_text, rules_type) == cur);
            }
        } else {
            let types = cell_value(sheet, 5, row);
            let text = cell_value(sheet, 6, row);
            let cat = get_category(text.as_str(), types.as_str(), categories);
            if cat.0.as_str().is_empty() || cat.1.as_str().is_empty() {
                proof {
                    assert(spec_regroup_row(cur, bold0, row, rules_text, rules_type) == cur);
                }
            } else {
                set_cell_value(sheet, 11, row, cat.0.as_str());
                set_cell_value(sheet, 12, row, cat.1.as_str());
                proof {
                    assert(sheet_values(*sheet) == spec_regroup_row(
                        cur,
                        bold0,
                        row,
                        rules_text,
                        rules_type,
                    ));
                }
            }
        }
        row += 1;
    }
    Ok(())
}

/// One date-rewrite step: the row's current delimiter is the character in
/// the third position of its accounting date; both date cells have every
/// occurrence of it replaced by the new delimiter, and when the old
/// accounting date parses, the month label is recomputed.  The label is
/// computed from the pre-rewrite string with its detected delimiter,
/// which names the same date as the rewritten string whenever either
/// parses.  A row whose date string is shorter than three characters is
/// left alone.
pub open spec fn spec_redate_row(
    vals: CellMap,
    row: u32,
    delim: Seq<char>,
    style: Seq<char>,
    lang: Seq<char>,
    cap: bool,
) -> CellMap {
    let ad = vals[(1u32, row)];
    let cur = crate::dates::spec_delimiter(ad);
    if cur.len() == 0 {
        vals
    } else {
        let v1 = vals.insert(
            (1u32, row),
            crate::text::spec_replace_char(ad, cur[0], delim),
        ).insert((2u32, row), crate::text::spec_replace_char(vals[(2u32, row)], cur[0], delim));
        match crate::dates::spec_parse_date(ad, cur) {
            None => v1,
            Some(d) => v1.insert((14u32, row), spec_month(d.month as int, style, lang, cap)),
        }
    }
}

/// The date-rewrite pass from `row` until the empty-date terminator.
pub open spec fn spec_redate(
    vals: CellMap,
    row: u32,
    delim: Seq<char>,
    style: Seq<char>,
    lang: Seq<char>,
    cap: bool,
) -> Option<CellMap>
    decreases u32::MAX - row,
{
    if vals[(1u32, row)].len() == 0 {
        Some(vals)
    } else if row == u32::MAX {
        None
    } else {
        spec_redate(
            spec_redate_row(vals, row, delim, style, lang, cap),
            (row + 1) as u32,
            delim,
            style,
            lang,
            cap,
        )
    }
}

/// Law: one date-rewrite step replaces every occurrence of the detected
/// delimiter — the third character of the accounting date — by the new
/// one in both date cells, and recomputes the month label exactly when
/// the old accounting date parses with that delimiter; an unparsable
/// date leaves the month cell as it was.
pub proof fn lemma_redate_row_rewrites(
    vals: CellMap,
    row: u32,
    delim: Seq<char>,
    style: Seq<char>,
    lang: Seq<char>,
    cap: bool,
)
    requires
        vals[(1u32, row)].len() >= 3,
    ensures
        ({
            let ad = vals[(1u32, row)];
            let out = spec_redate_row(vals, row, delim, style, lang, cap);
            &&& out[(1u32, row)] == crate::text::spec_replace_char(ad, ad[2], delim)
            &&& out[(2u32, row)] == crate::text::spec_replace_char(vals[(2u32, row)], ad[2], delim)
            &&& match crate::dates::spec_parse_date(ad, seq![ad[2]]) {
                Some(d) => out[(14u32, row)] == spec_month(d.month as int, style, lang, cap),
                None => out[(14u32, row)] == vals[(14u32, row)],
            }
        }),
{
    let ad = vals[(1u32, row)];
    assert(crate::dates::spec_delimiter(ad) =~= seq![ad[2]]);
}

/// Rewrites both date columns of every row to the new delimiter by
/// straight character replacement, and recomputes the month label where
/// the accounting date parses.
pub fn re_date(
    sheet: &mut Worksheet,
    delimiter: &str,
    date_month_style: &str,
    date_language: &str,
    date_capitalize: &bool,
) -> (r: Result<(), EngineError>)
    requires
        date_language@ == "norsk"@ || date_language@ == "english"@,
    ensures
        ({
            let sp = spec_redate(
                sheet_values(*old(sheet)),
                2,
                delimiter@,
                date_month_style@,
                date_language@,
                *date_capitalize,
            );
            match r {
                Ok(()) => sp == Some(sheet_values(*final(sheet))),
                Err(e) => e == EngineError::RowLimit && sp is None,
            }
        }),
        forall|c: u32, w: u32|
            (c != 1 && c != 2 && c != 14) ==> #[trigger] sheet_bold(*final(sheet))[(c, w)]
                == sheet_bold(*old(sheet))[(c, w)],
{
    let ghost vals0 = sheet_values(*sheet);
    let ghost bold0 = sheet_bold(*sheet);
    let mut row: u32 = 2;
    loop
        invariant_except_break
            vals0 == sheet_values(*old(sheet)),
            bold0 == sheet_bold(*old(sheet)),
            2 <= row,
            date_language@ == "norsk"@ || date_language@ == "english"@,
            spec_redate(
                sheet_values(*sheet),
                row,
                delimiter@,
                date_month_style@,
                date_language@,
                *date_capitalize,
            ) == spec_redate(
                vals0,
                2,
                delimiter@,
                date_month_style@,
                date_language@,
                *date_capitalize,
            ),
            forall|c: u32, w: u32|
                (c != 1 && c != 2 && c != 14) ==> #[trigger] sheet_bold(*sheet)[(c, w)] == bold0[(
                    c,
                    w,
                )],
        ensures
            vals0 == sheet_values(*old(sheet)),
            bold0 == sheet_bold(*old(sheet)),
            spec_redate(
                vals0,
                2,
                delimiter@,
                date_month_style@,
                date_language@,
                *date_capitalize,
            ) == Some(sheet_values(*sheet)),
            forall|c: u32, w: u32|
                (c != 1 && c != 2 && c != 14) ==> #[trigger] sheet_bold(*sheet)[(c, w)] == bold0[(
                    c,
                    w,
                )],
        decreases u32::MAX - row,
    {
        let ghost cur = sheet_values(*sheet);
        let accounting_date = cell_value(sheet, 1, row);
        if accounting_date.as_str().is_empty() {
            break ;
        }
        if row == u32::MAX {
            return Err(EngineError::RowLimit);
        }
        let cur_del = crate::dates::get_delimiter(accounting_date.as_str());
        let interest_date = cell_value(sheet, 2, row);
        if !cur_del.as_str().is_empty() {
            let c0 = cur_del.as_str().get_char(0);
            let new_ad = crate::text::replace_char(accounting_date.as_str(), c0, delimiter);
            set_cell_value(sheet, 1, row, new_ad.as_str());
            let new_id = crate::text::replace_char(interest_date.as_str(), c0, delimiter);
            set_cell_value(sheet, 2, row, new_id.as_str());
            match crate::dates::string_to_date(accounting_date.as_str(), cur_del.as_str()) {
                Ok(date) => {
                    let month = get_month(
                        date.month,
                        date_month_style,
                        date_language,
                        date_capitalize,
                    );
                    set_cell_value(sheet, 14, row, month.as_str());
                },
                Err(_) => {},
            }
            proof {
                assert(sheet_values(*sheet) == spec_redate_row(
                    cur,
                    row,
                    delimiter@,
                    date_month_style@,
                    date_language@,
                    *date_capitalize,
                ));
            }
        } else {
            proof {
                assert(spec_redate_row(
                    cur,
                    row,
                    delimiter@,
                    date_month_style@,
                    date_language@,
                    *date_capitalize,
                ) == cur);
            }
        }
        row += 1;
    }
    Ok(())
}

} // verus!
