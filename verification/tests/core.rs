use accounting::accounting::{Account, Bank};
use accounting::amounts::{format_amount, parse_amount};
use accounting::batch::{remove_duplicates, WorkbookInfo};
use accounting::bank::SBanken;
use accounting::categories::{get_category, Categories};
use accounting::dates::{date_to_string, get_delimiter, get_month, string_to_date, Date};
use accounting::errors::EngineError;
use accounting::settings::{get_flash_error, same_path, WorkbookInformation};
use accounting::text::{parse_u64, u64_to_string};

fn date(day: u32, month: u32, year: u32) -> Date {
    Date { year, month, day }
}

#[test]
fn test_account_to_string() {
    let a = Account {
        name: String::from("a"),
        number: 0,
    };
    assert_eq!(a.to_string(), String::from("a: 0"));
}

#[test]
fn test_get_date() {
    assert_eq!(get_month(12, "short", "norsk", &true), "Des");
    assert_eq!(get_month(12, "long", "norsk", &true), "Desember");
    assert_eq!(get_month(12, "long", "norsk", &false), "desember");
    assert_eq!(get_month(5, "short", "english", &true), "May");
    assert_eq!(get_month(5, "long", "english", &false), "may");
    assert_eq!(get_month(3, "long", "english", &false), "march");
}

#[test]
fn test_get_delimiter() {
    let date = "03.06.2022";
    assert_eq!(get_delimiter(date), ".");
    let date = "03/06/2022";
    assert_eq!(get_delimiter(date), "/");
}

#[test]
fn test_string_to_date() {
    let date = string_to_date("03.06.2022", ".");
    assert!(date.is_ok());
    let date = string_to_date("03/06/2022", "/");
    assert!(date.is_ok());
    let date = string_to_date("fail", ".");
    assert!(date.is_err());
}

#[test]
fn test_string_to_date_sbanken() {
    let date = SBanken::string_to_date("03.06.2022");
    assert!(date.is_ok());
    let date = SBanken::string_to_date("fail");
    assert!(date.is_err());
}

#[test]
fn test_string_to_date_values() {
    assert_eq!(string_to_date("03.06.2022", ".").unwrap(), date(3, 6, 2022));
    assert_eq!(string_to_date("1.1.2022", ".").unwrap(), date(1, 1, 2022));
    assert_eq!(string_to_date("29.02.2020", ".").unwrap(), date(29, 2, 2020));
    assert!(string_to_date("29.02.2021", ".").is_err());
    assert!(string_to_date("31.04.2022", ".").is_err());
    assert!(string_to_date("01.13.2022", ".").is_err());
    assert!(string_to_date("01.02.2022x", ".").is_err());
    assert_eq!(
        string_to_date("fail", ".").unwrap_err(),
        EngineError::ParseDate
    );
}

#[test]
fn test_date_to_string() {
    let date = string_to_date("1.1.2022", ".").unwrap();
    assert_eq!(date_to_string(date, "."), "01.01.2022");
    let date = string_to_date("1/1/2022", "/").unwrap();
    assert_eq!(date_to_string(date, "/"), "01/01/2022");
}

#[test]
fn test_get_category_from_text() {
    let from_text = "this is a test";
    let from_types = "test";
    let texts = vec![
        vec![
            String::from("row1"),
            String::from("row2"),
            String::from("no"),
        ],
        vec![
            String::from("row3"),
            String::from("row4"),
            String::from("test"),
        ],
    ];
    let types = vec![
        vec![String::from("row1"), String::from("row2")],
        vec![String::from("test"), String::from("row4")],
    ];
    let categories = Categories::new(texts, types);
    assert_eq!(
        get_category(from_text, from_types, &categories),
        (String::from("test"), String::from("row4"))
    );
}

#[test]
fn test_all_same_length() {
    let vec1 = vec![1, 2, 3];
    let vec2 = vec![1, 2, 3, 4];
    let vec = vec![&vec1, &vec2, &vec1];
    assert_eq!(accounting::batch::all_same_length(&vec), false);
    let vec = vec![&vec1, &vec1, &vec1];
    assert_eq!(accounting::batch::all_same_length(&vec), true);
}

#[test]
fn test_categories() {
    let v1 = vec![vec![String::new(), String::new()], vec![String::new()]];
    let v2 = vec![vec![String::new(), String::new()], vec![]];

    let cat = Categories::new(v1, v2);
    assert_eq!(cat.from_text, vec![vec![String::new(), String::new()]]);
    assert_eq!(cat.from_type, vec![vec![String::new(), String::new()]]);
}

#[test]
fn test_same_path() {
    // cannot test the equal case against real files here; with neither
    // path naming an existing file the comparison must fail
    assert!(same_path("dir/filename", false, "dir/filename", false).is_err());
    assert_eq!(same_path("a\\b.xlsx", true, "a/b.xlsx", true), Ok(true));
    assert_eq!(same_path("a/b.xlsx", true, "a/c.xlsx", true), Ok(false));
    assert_eq!(same_path("a/b.xlsx", true, "a/c.xlsx", false), Ok(false));
}

#[test]
fn test_get_flash_error() {
    let err = "test";
    assert_eq!(get_flash_error(err), "error: test");
}

fn batch(
    rows: Vec<(Date, Date, &str, &str, &str, &str, i64, i64, &str)>,
) -> WorkbookInfo {
    let mut accounting_date = vec![];
    let mut interest_date = vec![];
    let mut archive_reference = vec![];
    let mut counter_account = vec![];
    let mut types = vec![];
    let mut text = vec![];
    let mut out_of_account = vec![];
    let mut into_account = vec![];
    let mut account = vec![];
    for (ad, id, ar, ca, ty, tx, out, into, ac) in rows {
        accounting_date.push(ad);
        interest_date.push(id);
        archive_reference.push(String::from(ar));
        counter_account.push(String::from(ca));
        types.push(String::from(ty));
        text.push(String::from(tx));
        out_of_account.push(out);
        into_account.push(into);
        account.push(String::from(ac));
    }
    WorkbookInfo::new(
        accounting_date,
        interest_date,
        archive_reference,
        counter_account,
        types,
        text,
        out_of_account,
        into_account,
        account,
    )
    .unwrap()
}

#[test]
fn test_remove_duplicates() {
    let d1 = string_to_date("01.01.2022", ".").unwrap();
    let d2 = string_to_date("01.02.2022", ".").unwrap();
    let wb1 = batch(vec![
        (d1, d1, "1", "counter", "type1", "text1", 0, 100, "a"),
        (d2, d2, "1", "counter", "type2", "text2", 100, 0, "a"),
        (d2, d2, "1", "counter", "type3", "text3", 100, 0, "a"),
    ]);
    let wb2 = batch(vec![
        (d1, d1, "1", "counter", "type1", "text1", 0, 100, "a"),
        (d2, d2, "1", "counter", "type2", "text2", 0, 100, "a"),
        (d2, d2, "1", "counter", "type3", "text3", 100, 0, "a"),
    ]);
    let wb = remove_duplicates(wb1, wb2);
    let res = batch(vec![(d2, d2, "1", "counter", "type2", "text2", 100, 0, "a")]);
    assert_eq!(wb, res);
}

#[test]
fn test_new_woorkbook_info() {
    let wb = WorkbookInfo::new(
        vec![date(1, 2, 2022)],
        vec![date(1, 2, 2022)],
        vec![String::from("1")],
        vec![String::from("counter")],
        vec![String::from("type3")],
        vec![String::from("text2")],
        vec![300, 100],
        vec![0],
        vec![String::from("account")],
    );
    assert!(wb.is_err());

    let wb = WorkbookInfo::new(
        vec![date(1, 2, 2022)],
        vec![date(1, 2, 2022)],
        vec![String::from("1")],
        vec![String::from("counter")],
        vec![String::from("type3")],
        vec![String::from("text2")],
        vec![300],
        vec![0],
        vec![String::from("account")],
    );
    assert!(wb.is_ok());
}

#[test]
fn test_new_batch_each_column() {
    let make = |extra: usize| {
        let pad = |n: usize, extra: usize| -> Vec<String> {
            vec![String::from("x"); n + extra]
        };
        let d = date(1, 1, 2022);
        (
            vec![d; 2],
            vec![d; 2],
            pad(2, if extra == 3 { 1 } else { 0 }),
            pad(2, if extra == 4 { 1 } else { 0 }),
            pad(2, if extra == 5 { 1 } else { 0 }),
            pad(2, if extra == 6 { 1 } else { 0 }),
            vec![0i64; if extra == 7 { 3 } else { 2 }],
            vec![0i64; if extra == 8 { 3 } else { 2 }],
            pad(2, if extra == 9 { 1 } else { 0 }),
        )
    };
    for case in [0usize, 3, 4, 5, 6, 7, 8, 9] {
        let (ad, id, ar, ca, ty, tx, out, into, ac) = make(case);
        let r = WorkbookInfo::new(ad, id, ar, ca, ty, tx, out, into, ac);
        if case == 0 {
            assert!(r.is_ok());
        } else {
            assert_eq!(r.unwrap_err(), EngineError::Validation);
        }
    }
    // a date column of the wrong length fails too
    let (_, id, ar, ca, ty, tx, out, into, ac) = make(0);
    let r = WorkbookInfo::new(vec![date(1, 1, 2022); 3], id, ar, ca, ty, tx, out, into, ac);
    assert_eq!(r.unwrap_err(), EngineError::Validation);
}

#[test]
fn test_subtract_self_is_empty() {
    let d1 = string_to_date("01.01.2022", ".").unwrap();
    let d2 = string_to_date("05.03.2022", ".").unwrap();
    let rows = vec![
        (d1, d1, "1", "c", "t1", "x1", 0, 100, "a"),
        (d2, d2, "2", "c", "t2", "x2", 50, 0, "a"),
    ];
    let a = batch(rows.clone());
    let b = batch(rows);
    let r = remove_duplicates(a, b);
    assert_eq!(r.accounting_date.len(), 0);
}

#[test]
fn test_subtract_idempotent() {
    let d1 = string_to_date("01.01.2022", ".").unwrap();
    let d2 = string_to_date("05.03.2022", ".").unwrap();
    let d3 = string_to_date("09.07.2022", ".").unwrap();
    let a_rows = vec![
        (d1, d1, "1", "c", "t1", "x1", 0, 100, "a"),
        (d2, d2, "2", "c", "t2", "x2", 50, 0, "a"),
        (d3, d3, "3", "c", "t3", "x3", 25, 0, "a"),
    ];
    let b_rows = vec![(d2, d2, "2", "c", "t2", "x2", 50, 0, "a")];
    let once = remove_duplicates(batch(a_rows.clone()), batch(b_rows.clone()));
    let twice = remove_duplicates(
        remove_duplicates(batch(a_rows), batch(b_rows.clone())),
        batch(b_rows),
    );
    assert_eq!(once, twice);
}

#[test]
fn test_categorize_scenarios() {
    let cats = Categories::new(
        vec![vec![
            String::from("Groceries"),
            String::from("Expense"),
            String::from("shop"),
        ]],
        vec![],
    );
    assert_eq!(
        get_category("big shop today", "card", &cats),
        (String::from("Groceries"), String::from("Expense"))
    );
    let empty = Categories::new(vec![], vec![]);
    assert_eq!(
        get_category("big shop today", "card", &empty),
        (String::new(), String::new())
    );
}

#[test]
fn test_type_rules_take_priority() {
    // both a type rule and a text rule could fire on this record
    let cats = Categories::new(
        vec![vec![
            String::from("Groceries"),
            String::from("Expense"),
            String::from("shop"),
        ]],
        vec![vec![String::from("Transfer"), String::from("Moving")]],
    );
    assert_eq!(
        get_category("shop run", "internal transfer", &cats),
        (String::from("Transfer"), String::from("Moving"))
    );
}

#[test]
fn test_categorize_case_insensitive() {
    let cats = Categories::new(
        vec![vec![
            String::from("Groceries"),
            String::from("Expense"),
            String::from("SHOP"),
        ]],
        vec![],
    );
    assert_eq!(
        get_category("Big Shop Today", "card", &cats),
        (String::from("Groceries"), String::from("Expense"))
    );
}

#[test]
fn test_parse_amount_values() {
    assert_eq!(parse_amount("0"), Some(0));
    assert_eq!(parse_amount("1.5"), Some(150));
    assert_eq!(parse_amount("1.05"), Some(105));
    assert_eq!(parse_amount("-2"), Some(-200));
    assert_eq!(parse_amount("123.45"), Some(12345));
    assert_eq!(parse_amount("-0.5"), Some(-50));
    assert_eq!(parse_amount(""), None);
    assert_eq!(parse_amount("abc"), None);
    assert_eq!(parse_amount("1.234"), None);
    assert_eq!(parse_amount("1."), None);
    assert_eq!(parse_amount(".5"), None);
    assert_eq!(parse_amount("+5"), None);
}

#[test]
fn test_format_amount_values() {
    assert_eq!(format_amount(0), "0");
    assert_eq!(format_amount(150), "1.5");
    assert_eq!(format_amount(105), "1.05");
    assert_eq!(format_amount(-200), "-2");
    assert_eq!(format_amount(12345), "123.45");
    assert_eq!(format_amount(-50), "-0.5");
}

#[test]
fn test_amount_round_trip() {
    for cents in [0i64, 1, 99, 100, 150, 10001, -1, -99, -12345] {
        let s = format_amount(cents);
        assert_eq!(parse_amount(&s), Some(cents));
    }
}

#[test]
fn test_parse_u64_values() {
    assert_eq!(parse_u64("0"), Some(0));
    assert_eq!(parse_u64("12345"), Some(12345));
    // one leading plus sign, as std's u64 parse accepts
    assert_eq!(parse_u64("+5"), Some(5));
    assert_eq!(parse_u64("+"), None);
    assert_eq!(parse_u64("++5"), None);
    assert_eq!(parse_u64(""), None);
    assert_eq!(parse_u64("12a"), None);
    assert_eq!(parse_u64("99999999999999999999"), None);
}

#[test]
fn test_u64_to_string_values() {
    assert_eq!(u64_to_string(0), "0");
    assert_eq!(u64_to_string(7), "7");
    assert_eq!(u64_to_string(12345), "12345");
}

#[test]
fn test_banks() {
    assert_eq!(Bank::get_banks().len(), 1);
    assert_eq!(Bank::to_string(&Bank::SBanken), "SBanken");
}

#[test]
fn test_account_is_valid() {
    let unset = Account {
        name: String::new(),
        number: 0,
    };
    assert!(!unset.is_valid());
    let named = Account {
        name: String::from("a"),
        number: 0,
    };
    assert!(named.is_valid());
}

#[test]
fn test_reset_accounts() {
    let mut info = WorkbookInformation::default();
    info.init(None, None);
    info.accounts = vec![Account {
        name: String::from("name"),
        number: 0,
    }];
    info.reset_accounts();
    assert_eq!(info.accounts.len(), 0);
}
