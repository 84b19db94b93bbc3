use accounting::accounting::Bank;
use accounting::batch::WorkbookInfo;
use accounting::categories::Categories;
use accounting::dates::Date;
use accounting::errors::EngineError;
use accounting::reading::{
    get_accounts, get_categories, get_first_empty_line, get_transactions,
    get_workbook_transactions,
};
use accounting::writing::{fill_empty_rows, re_date, re_group, write_to_workbook};
use umya_spreadsheet::Workbook;
use umya_spreadsheet::Worksheet;

fn new_sheet() -> Workbook {
    umya_spreadsheet::new_file()
}

fn set(ws: &mut Worksheet, col: u32, row: u32, value: &str) {
    ws.cell_mut((col, row)).set_value_string(value);
}

fn get(ws: &Worksheet, col: u32, row: u32) -> String {
    ws.value((col, row))
}

/// Writes one ledger-layout row: A..H data, J account, K/L labels, O note.
fn set_ledger_row(
    ws: &mut Worksheet,
    row: u32,
    dates: (&str, &str),
    data: (&str, &str, &str, &str),
    amounts: (&str, &str),
    account: &str,
) {
    set(ws, 1, row, dates.0);
    set(ws, 2, row, dates.1);
    set(ws, 3, row, data.0);
    set(ws, 4, row, data.1);
    set(ws, 5, row, data.2);
    set(ws, 6, row, data.3);
    set(ws, 7, row, amounts.0);
    set(ws, 8, row, amounts.1);
    set(ws, 10, row, account);
}

#[test]
fn test_get_first_empty_line_sheet() {
    let mut book = new_sheet();
    let ws = book.sheet_by_name_mut("Sheet1").unwrap();
    assert_eq!(get_first_empty_line(ws), 1);
    set(ws, 1, 1, "header");
    set(ws, 1, 2, "01.01.2022");
    assert_eq!(get_first_empty_line(ws), 3);
}

#[test]
fn test_get_accounts() {
    let mut book = new_sheet();
    let ws = book.sheet_by_name_mut("Sheet1").unwrap();
    set(ws, 2, 1, "Name");
    set(ws, 3, 1, "Number");
    set(ws, 2, 2, "Brukskonto");
    set(ws, 3, 2, "12345");
    set(ws, 2, 3, "Sparekonto");
    set(ws, 3, 3, "678");
    // row 4 has no parsable number, so the walk stops there
    set(ws, 2, 4, "Gammel");
    set(ws, 3, 4, "none");
    let accounts = get_accounts(ws).unwrap();
    assert_eq!(accounts.len(), 2);
    assert_eq!(accounts[0].name, "Brukskonto");
    assert_eq!(accounts[0].number, 12345);
    assert_eq!(accounts[1].name, "Sparekonto");
    assert_eq!(accounts[1].number, 678);
}

#[test]
fn test_get_accounts_plus_signed_number() {
    // a number cell with a leading plus sign still parses, as std's
    // u64 parse accepts it
    let mut book = new_sheet();
    let ws = book.sheet_by_name_mut("Sheet1").unwrap();
    set(ws, 2, 2, "Pluss");
    set(ws, 3, 2, "+9");
    let accounts = get_accounts(ws).unwrap();
    assert_eq!(accounts.len(), 1);
    assert_eq!(accounts[0].number, 9);
}

#[test]
fn test_get_categories_sheet() {
    let mut book = new_sheet();
    let ws = book.sheet_by_name_mut("Sheet1").unwrap();
    // first column: a text rule with one keyword
    set(ws, 1, 1, "from text");
    set(ws, 1, 2, "Groceries");
    set(ws, 1, 3, "Expense");
    set(ws, 1, 4, "shop");
    // second column: no class in row 3, contributes nothing
    set(ws, 2, 1, "from text");
    set(ws, 2, 2, "Dropped");
    // third column: header contains "type", so rules switch tiers here
    set(ws, 3, 1, "from type");
    set(ws, 3, 2, "Transfer");
    set(ws, 3, 3, "Moving");
    let cats = get_categories(ws).unwrap();
    assert_eq!(
        cats.from_text,
        vec![vec![
            String::from("Groceries"),
            String::from("Expense"),
            String::from("shop"),
        ]]
    );
    assert_eq!(
        cats.from_type,
        vec![vec![String::from("Transfer"), String::from("Moving")]]
    );
}

#[test]
fn test_get_workbook_transactions_sheet() {
    let mut book = new_sheet();
    let ws = book.sheet_by_name_mut("Sheet1").unwrap();
    set(ws, 1, 1, "header");
    set_ledger_row(
        ws,
        2,
        ("01.02.2022", "02.02.2022"),
        ("ref1", "c1", "t1", "x1"),
        ("10.5", "0"),
        "A",
    );
    set_ledger_row(
        ws,
        3,
        ("03/02/2022", "03/02/2022"),
        ("ref2", "c2", "t2", "x2"),
        ("0", "99"),
        "B",
    );
    let wb = get_workbook_transactions(ws).unwrap();
    assert_eq!(wb.accounting_date.len(), 2);
    assert_eq!(
        wb.accounting_date[0],
        Date {
            year: 2022,
            month: 2,
            day: 1
        }
    );
    // the delimiter is detected per row
    assert_eq!(
        wb.accounting_date[1],
        Date {
            year: 2022,
            month: 2,
            day: 3
        }
    );
    assert_eq!(wb.out_of_account, vec![1050, 0]);
    assert_eq!(wb.into_account, vec![0, 9900]);
    assert_eq!(wb.account, vec![String::from("A"), String::from("B")]);
}

#[test]
fn test_get_workbook_transactions_errors() {
    let mut book = new_sheet();
    let ws = book.sheet_by_name_mut("Sheet1").unwrap();
    set_ledger_row(
        ws,
        2,
        ("bad date", "02.02.2022"),
        ("r", "c", "t", "x"),
        ("1", "2"),
        "A",
    );
    assert_eq!(
        get_workbook_transactions(ws).unwrap_err(),
        EngineError::ParseAccountingDate
    );
    set(ws, 1, 2, "01.02.2022");
    set(ws, 2, 2, "nope");
    assert_eq!(
        get_workbook_transactions(ws).unwrap_err(),
        EngineError::ParseInterestDate
    );
    set(ws, 2, 2, "02.02.2022");
    set(ws, 7, 2, "x");
    assert_eq!(
        get_workbook_transactions(ws).unwrap_err(),
        EngineError::ParseDebit
    );
    set(ws, 7, 2, "1");
    set(ws, 8, 2, "x");
    assert_eq!(
        get_workbook_transactions(ws).unwrap_err(),
        EngineError::ParseCredit
    );
}

/// Writes one bank-layout row (A..H only, no account column).
fn set_bank_row(
    ws: &mut Worksheet,
    row: u32,
    dates: (&str, &str),
    data: (&str, &str, &str, &str),
    amounts: (&str, &str),
) {
    set(ws, 1, row, dates.0);
    set(ws, 2, row, dates.1);
    set(ws, 3, row, data.0);
    set(ws, 4, row, data.1);
    set(ws, 5, row, data.2);
    set(ws, 6, row, data.3);
    set(ws, 7, row, amounts.0);
    set(ws, 8, row, amounts.1);
}

#[test]
fn test_get_transactions_sheet() {
    let mut book = new_sheet();
    let ws = book.sheet_by_name_mut("Sheet1").unwrap();
    // bank rows start at row 4; the debit column carries signed values
    set_bank_row(
        ws,
        4,
        ("02.01.2022", "02.01.2022"),
        ("r2", "c2", "t2", "x2"),
        ("-20", "0"),
    );
    set_bank_row(
        ws,
        5,
        ("01.01.2022", "01.01.2022"),
        ("r1", "c1", "t1", "x1"),
        ("0", "35.5"),
    );
    let wb = get_transactions(ws, Bank::SBanken, "mine").unwrap();
    // rows come out reversed, oldest first, with the account attached
    assert_eq!(wb.accounting_date.len(), 2);
    assert_eq!(
        wb.accounting_date[0],
        Date {
            year: 2022,
            month: 1,
            day: 1
        }
    );
    assert_eq!(wb.out_of_account, vec![0, 2000]);
    assert_eq!(wb.into_account, vec![3550, 0]);
    assert_eq!(wb.account, vec![String::from("mine"), String::from("mine")]);
}

fn plain_rules() -> Categories {
    Categories::new(
        vec![vec![
            String::from("Groceries"),
            String::from("Expense"),
            String::from("shop"),
        ]],
        vec![],
    )
}

#[test]
fn test_write_sheet() {
    let mut book = new_sheet();
    let ws = book.sheet_by_name_mut("Sheet1").unwrap();
    set(ws, 1, 1, "header");
    let info = WorkbookInfo::new(
        vec![Date {
            year: 2022,
            month: 2,
            day: 1,
        }],
        vec![Date {
            year: 2022,
            month: 2,
            day: 2,
        }],
        vec![String::from("ref")],
        vec![String::from("counter")],
        vec![String::from("visa")],
        vec![String::from("the corner shop")],
        vec![1050],
        vec![0],
        vec![String::from("A")],
    )
    .unwrap();
    let cats = plain_rules();
    accounting::writing::write(ws, info, &cats, "/", "short", "english", &true).unwrap();
    assert_eq!(get(ws, 1, 2), "01/02/2022");
    assert_eq!(get(ws, 2, 2), "02/02/2022");
    assert_eq!(get(ws, 3, 2), "ref");
    assert_eq!(get(ws, 7, 2), "10.5");
    assert_eq!(get(ws, 8, 2), "0");
    assert_eq!(get(ws, 9, 2), "-10.5");
    assert_eq!(get(ws, 10, 2), "A");
    assert_eq!(get(ws, 11, 2), "Groceries");
    assert_eq!(get(ws, 12, 2), "Expense");
    assert_eq!(get(ws, 13, 2), "2022");
    assert_eq!(get(ws, 14, 2), "Feb");
}

fn gap_sheet(neighbor_amount: &str, neighbor_row: u32, target_row: u32) -> Workbook {
    let mut book = new_sheet();
    let ws = book.sheet_by_name_mut("Sheet1").unwrap();
    set(ws, 1, 1, "header");
    let last = neighbor_row.max(target_row);
    for row in 2..=last {
        set(ws, 1, row, "01.01.2022");
        if row != target_row && row != neighbor_row {
            set(ws, 11, row, "Other");
            set(ws, 12, row, "Expense");
            set(ws, 9, row, "7");
        }
    }
    {
        let ws = book.sheet_by_name_mut("Sheet1").unwrap();
        set(ws, 9, neighbor_row, neighbor_amount);
        set(ws, 11, neighbor_row, "Moving");
        set(ws, 12, neighbor_row, "Transfer");
        set(ws, 9, target_row, "-50");
    }
    book
}

#[test]
fn test_fill_gaps_match_within_margin() {
    // a row with net -50 and margin 5 matches a neighbour in [45, 55]
    for amount in ["45", "50", "55"] {
        let mut book = gap_sheet(amount, 3, 4);
        let ws = book.sheet_by_name_mut("Sheet1").unwrap();
        fill_empty_rows(ws, 10, 5).unwrap();
        assert_eq!(get(ws, 11, 4), "Moving");
        assert_eq!(get(ws, 12, 4), "Transfer");
    }
}

#[test]
fn test_fill_gaps_outside_margin() {
    for amount in ["44.99", "55.01", "-50"] {
        let mut book = gap_sheet(amount, 3, 4);
        let ws = book.sheet_by_name_mut("Sheet1").unwrap();
        fill_empty_rows(ws, 10, 5).unwrap();
        assert_eq!(get(ws, 11, 4), "");
    }
}

#[test]
fn test_fill_gaps_outside_window() {
    // the neighbour sits 5 rows above the target, past a window of 3
    let mut book = gap_sheet("50", 3, 8);
    let ws = book.sheet_by_name_mut("Sheet1").unwrap();
    fill_empty_rows(ws, 3, 5).unwrap();
    assert_eq!(get(ws, 11, 8), "");
}

#[test]
fn test_fill_gaps_window_is_inclusive() {
    // a neighbour exactly `range` rows below the target still counts
    let mut book = gap_sheet("50", 7, 4);
    let ws = book.sheet_by_name_mut("Sheet1").unwrap();
    fill_empty_rows(ws, 3, 5).unwrap();
    assert_eq!(get(ws, 11, 4), "Moving");
    // one row further it no longer does
    let mut book = gap_sheet("50", 8, 4);
    let ws = book.sheet_by_name_mut("Sheet1").unwrap();
    fill_empty_rows(ws, 3, 5).unwrap();
    assert_eq!(get(ws, 11, 4), "");
}

#[test]
fn test_re_group_sheet() {
    let mut book = new_sheet();
    let ws = book.sheet_by_name_mut("Sheet1").unwrap();
    set(ws, 1, 1, "header");
    // row 2: rule now matches, the label is rewritten
    set(ws, 1, 2, "01.01.2022");
    set(ws, 5, 2, "visa");
    set(ws, 6, 2, "corner shop");
    set(ws, 11, 2, "Old");
    set(ws, 12, 2, "Stale");
    // row 3: pinned by a bold category cell, kept as it is
    set(ws, 1, 3, "02.01.2022");
    set(ws, 5, 3, "visa");
    set(ws, 6, 3, "corner shop");
    set(ws, 11, 3, "Pinned");
    set(ws, 12, 3, "Manual");
    ws.style_mut((11u32, 3u32)).font_mut().set_bold(true);
    // row 4: no rule fires, the old label survives
    set(ws, 1, 4, "03.01.2022");
    set(ws, 5, 4, "visa");
    set(ws, 6, 4, "nothing here");
    set(ws, 11, 4, "Kept");
    set(ws, 12, 4, "AsIs");
    // row 5: a manual note ends the walk, later rows stay untouched
    set(ws, 1, 5, "04.01.2022");
    set(ws, 15, 5, "note");
    set(ws, 5, 5, "visa");
    set(ws, 6, 5, "corner shop");
    set(ws, 1, 6, "05.01.2022");
    set(ws, 5, 6, "visa");
    set(ws, 6, 6, "corner shop");
    let cats = plain_rules();
    re_group(ws, &cats).unwrap();
    assert_eq!(get(ws, 11, 2), "Groceries");
    assert_eq!(get(ws, 12, 2), "Expense");
    assert_eq!(get(ws, 11, 3), "Pinned");
    assert_eq!(get(ws, 11, 4), "Kept");
    assert_eq!(get(ws, 11, 5), "");
    assert_eq!(get(ws, 11, 6), "");
}

#[test]
fn test_re_date_sheet() {
    let mut book = new_sheet();
    let ws = book.sheet_by_name_mut("Sheet1").unwrap();
    set(ws, 1, 1, "header");
    set(ws, 1, 2, "01.02.2022");
    set(ws, 2, 2, "02.02.2022");
    set(ws, 14, 2, "old");
    re_date(ws, "/", "short", "english", &true).unwrap();
    assert_eq!(get(ws, 1, 2), "01/02/2022");
    assert_eq!(get(ws, 2, 2), "02/02/2022");
    // the month label is recomputed from the rewritten date
    assert_eq!(get(ws, 14, 2), "Feb");
}

#[test]
fn test_re_date_unparsable_keeps_month() {
    let mut book = new_sheet();
    let ws = book.sheet_by_name_mut("Sheet1").unwrap();
    set(ws, 1, 1, "header");
    set(ws, 1, 2, "99.99.2022");
    set(ws, 2, 2, "99.99.2022");
    set(ws, 14, 2, "old");
    re_date(ws, "/", "short", "english", &true).unwrap();
    // the malformed date is still mechanically rewritten
    assert_eq!(get(ws, 1, 2), "99/99/2022");
    assert_eq!(get(ws, 14, 2), "old");
}

#[test]
fn test_mock_transaction_drives_write() {
    let mut book = new_sheet();
    let fixture = accounting::fixtures::MockTransaction {
        path: String::from("test.xlsx"),
        info: WorkbookInfo::new(
            vec![Date {
                year: 2022,
                month: 3,
                day: 5,
            }],
            vec![Date {
                year: 2022,
                month: 3,
                day: 5,
            }],
            vec![String::from("0")],
            vec![String::from("1")],
            vec![String::from("types")],
            vec![String::from("text")],
            vec![0],
            vec![0],
            vec![String::from("0")],
        )
        .unwrap(),
        categories: Categories::new(vec![], vec![]),
        date_delimiter: String::from("/"),
        date_month_style: String::from("short"),
        date_language: String::from("english"),
        date_capitalize: false,
    };
    let ws = book.sheet_by_name_mut("Sheet1").unwrap();
    accounting::writing::write(
        ws,
        fixture.info,
        &fixture.categories,
        &fixture.date_delimiter,
        &fixture.date_month_style,
        &fixture.date_language,
        &fixture.date_capitalize,
    )
    .unwrap();
    assert_eq!(get(ws, 1, 1), "05/03/2022");
    assert_eq!(get(ws, 14, 1), "mar");
}

#[test]
fn test_write_to_workbook_end_to_end() {
    // a 3-row bank batch; the ledger already holds one of them verbatim
    let mut transactions = new_sheet();
    {
        let ws = transactions.sheet_by_name_mut("Sheet1").unwrap();
        set_bank_row(
            ws,
            4,
            ("03.01.2022", "03.01.2022"),
            ("r3", "c3", "visa", "the corner shop"),
            ("-30", "0"),
        );
        set_bank_row(
            ws,
            5,
            ("02.01.2022", "02.01.2022"),
            ("r2", "c2", "visa", "weekly shop"),
            ("-20", "0"),
        );
        set_bank_row(
            ws,
            6,
            ("01.01.2022", "01.01.2022"),
            ("r1", "c1", "visa", "old shop"),
            ("-10", "0"),
        );
    }
    let mut ledger = new_sheet();
    {
        let ws = ledger.sheet_by_name_mut("Sheet1").unwrap();
        set(ws, 1, 1, "header");
        // the duplicate of bank row 6, in ledger layout with account "A"
        set_ledger_row(
            ws,
            2,
            ("01.01.2022", "01.01.2022"),
            ("r1", "c1", "visa", "old shop"),
            ("10", "0"),
        "A",
        );
    }
    let cats = plain_rules();
    let transactions_ws = transactions.sheet_by_name("Sheet1").unwrap();
    let ledger_ws = ledger.sheet_by_name_mut("Sheet1").unwrap();
    write_to_workbook(
        ledger_ws,
        transactions_ws,
        Bank::SBanken,
        "A",
        &cats,
        ".",
        "short",
        "english",
        &true,
    )
    .unwrap();
    // the ledger now holds the original row plus exactly the 2 new rows,
    // oldest first, each categorized by the active rule set
    assert_eq!(get(ledger_ws, 1, 2), "01.01.2022");
    assert_eq!(get(ledger_ws, 1, 3), "02.01.2022");
    assert_eq!(get(ledger_ws, 6, 3), "weekly shop");
    assert_eq!(get(ledger_ws, 7, 3), "20");
    assert_eq!(get(ledger_ws, 10, 3), "A");
    assert_eq!(get(ledger_ws, 11, 3), "Groceries");
    assert_eq!(get(ledger_ws, 12, 3), "Expense");
    assert_eq!(get(ledger_ws, 1, 4), "03.01.2022");
    assert_eq!(get(ledger_ws, 6, 4), "the corner shop");
    assert_eq!(get(ledger_ws, 11, 4), "Groceries");
    assert_eq!(get(ledger_ws, 1, 5), "");
}
