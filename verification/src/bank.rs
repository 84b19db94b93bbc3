//! Ingestion of a bank-statement-shaped source: the SBanken statement
//! layout, read into column-parallel record vectors.

use vstd::prelude::*;
use crate::amounts::{amount_cents, parse_amount, parses_amount_i64};
use crate::batch::{columns_view, RecordV};
use crate::dates::{spec_parse_date, string_to_date, Date};
use crate::errors::EngineError;
use crate::reading::CellMap;
use crate::sheet::{cell_formatted_value, cell_value, sheet_formatted, sheet_values};
use umya_spreadsheet::Worksheet;

verus! {

/// A bank statement batch: the record columns as they appear in the
/// source, before the owning account is attached.  Amounts are in
/// hundredths of the currency; the debit column holds absolute values.
#[derive(Debug)]
pub struct SBanken {
    pub accounting_date: Vec<Date>,
    pub interest_date: Vec<Date>,
    pub archive_reference: Vec<String>,
    pub counter_account: Vec<String>,
    pub types: Vec<String>,
    pub text: Vec<String>,
    pub out_of_account: Vec<i64>,
    pub into_account: Vec<i64>,
}

impl SBanken {
    /// All attribute columns have the same length.
    pub open spec fn wf(self) -> bool {
        &&& self.interest_date@.len() == self.accounting_date@.len()
        &&& self.archive_reference@.len() == self.accounting_date@.len()
        &&& self.counter_account@.len() == self.accounting_date@.len()
        &&& self.types@.len() == self.accounting_date@.len()
        &&& self.text@.len() == self.accounting_date@.len()
        &&& self.out_of_account@.len() == self.accounting_date@.len()
        &&& self.into_account@.len() == self.accounting_date@.len()
    }

    /// Every date in the batch is a real calendar date.
    pub open spec fn dates_wf(self) -> bool {
        &&& forall|i: int|
            0 <= i < self.accounting_date@.len() ==> (#[trigger] self.accounting_date@[i]).wf()
        &&& forall|i: int|
            0 <= i < self.interest_date@.len() ==> (#[trigger] self.interest_date@[i]).wf()
    }
}

impl View for SBanken {
    type V = Seq<RecordV>;

    open spec fn view(&self) -> Seq<RecordV> {
        Seq::new(
            self.accounting_date@.len(),
            |i: int|
                RecordV {
                    accounting_date: self.accounting_date@[i],
                    interest_date: self.interest_date@[i],
                    archive_reference: self.archive_reference@[i]@,
                    counter_account: self.counter_account@[i]@,
                    types: self.types@[i]@,
                    text: self.text@[i]@,
                    out_of_account: self.out_of_account@[i] as int,
                    into_account: self.into_account@[i] as int,
                    account: Seq::<char>::empty(),
                },
        )
    }
}

/// One record of the bank source at `row`: dates from the display
/// strings of the date cells (dot-delimited), the four free-form columns, the debit amount as
/// its absolute value, the credit amount as read, and no account.
pub open spec fn bank_record(fm: CellMap, vals: CellMap, row: u32) -> RecordV {
    let out = amount_cents(vals[(7u32, row)]);
    RecordV {
        accounting_date: spec_parse_date(fm[(1u32, row)], "."@)->Some_0,
        interest_date: spec_parse_date(fm[(2u32, row)], "."@)->Some_0,
        archive_reference: vals[(3u32, row)],
        counter_account: vals[(4u32, row)],
        types: vals[(5u32, row)],
        text: vals[(6u32, row)],
        out_of_account: if out < 0 {
            -out
        } else {
            out
        },
        into_account: amount_cents(vals[(8u32, row)]),
        account: Seq::<char>::empty(),
    }
}

/// The bank source read from `row` downward until the first row whose
/// accounting-date display string is empty: the record sequence in source
/// order, the first field error encountered, or `None` when the scan
/// exhausts the row index space.
pub open spec fn spec_read_bank(fm: CellMap, vals: CellMap, row: u32) -> Option<
    Result<Seq<RecordV>, EngineError>,
>
    decreases u32::MAX - row,
{
    if fm[(1u32, row)].len() == 0 {
        Some(Ok(Seq::<RecordV>::empty()))
    } else if spec_parse_date(fm[(1u32, row)], "."@) is None {
        Some(Err(EngineError::ParseAccountingDate))
    } else if spec_parse_date(fm[(2u32, row)], "."@) is None {
        Some(Err(EngineError::ParseInterestDate))
    } else if !parses_amount_i64(vals[(7u32, row)]) {
        Some(Err(EngineError::ParseDebit))
    } else if !parses_amount_i64(vals[(8u32, row)]) {
        Some(Err(EngineError::ParseCredit))
    } else if row == u32::MAX {
        None
    } else {
        match spec_read_bank(fm, vals, (row + 1) as u32) {
            None => None,
            Some(Err(e)) => Some(Err(e)),
            Some(Ok(rest)) => Some(Ok(seq![bank_record(fm, vals, row)] + rest)),
        }
    }
}

/// Every record the bank reader yields is well-formed: its dates come
/// from the date parser and its amounts from the bounded amount parser.
pub proof fn lemma_read_bank_wf(fm: CellMap, vals: CellMap, row: u32)
    ensures
        ({
            let sp = spec_read_bank(fm, vals, row);
            sp is Some && sp->Some_0 is Ok ==> crate::batch::records_wf(sp->Some_0->Ok_0)
        }),
    decreases u32::MAX - row,
{
    let sp = spec_read_bank(fm, vals, row);
    if fm[(1u32, row)].len() == 0 {
    } else if spec_parse_date(fm[(1u32, row)], "."@) is None {
    } else if spec_parse_date(fm[(2u32, row)], "."@) is None {
    } else if !parses_amount_i64(vals[(7u32, row)]) {
    } else if !parses_amount_i64(vals[(8u32, row)]) {
    } else if row == u32::MAX {
    } else {
        lemma_read_bank_wf(fm, vals, (row + 1) as u32);
        crate::dates::lemma_parse_date_wf(fm[(1u32, row)], "."@);
        crate::dates::lemma_parse_date_wf(fm[(2u32, row)], "."@);
        let next = spec_read_bank(fm, vals, (row + 1) as u32);
        if next is Some && next->Some_0 is Ok {
            let rest = next->Some_0->Ok_0;
            let whole = seq![bank_record(fm, vals, row)] + rest;
            assert forall|i: int|
                0 <= i < whole.len() implies {
                &&& (#[trigger] whole[i]).accounting_date.wf()
                &&& whole[i].interest_date.wf()
                &&& -crate::amounts::AMOUNT_LIMIT <= whole[i].out_of_account
                    <= crate::amounts::AMOUNT_LIMIT
                &&& -crate::amounts::AMOUNT_LIMIT <= whole[i].into_account
                    <= crate::amounts::AMOUNT_LIMIT
            } by {
                if i == 0 {
                    assert(whole[0] == bank_record(fm, vals, row));
                } else {
                    assert(whole[i] == rest[i - 1]);
                }
            }
        }
    }
}

impl SBanken {
    /// Parses one dot-delimited date string of the bank source.
    pub fn string_to_date(date: &str) -> (r: Result<Date, EngineError>)
        ensures
            match r {
                Ok(d) => spec_parse_date(date@, "."@) == Some(d) && d.wf(),
                Err(e) => spec_parse_date(date@, "."@) is None && e == EngineError::ParseDate,
            },
    {
        string_to_date(date, ".")
    }

    /// Reads the bank statement rows, from row 4 until the empty-cell
    /// terminator, into a batch in source order.
    pub fn get_transactions(sheet: &Worksheet) -> (r: Result<SBanken, EngineError>)
        ensures
            ({
                let sp = spec_read_bank(sheet_formatted(*sheet), sheet_values(*sheet), 4);
                match r {
                    Ok(b) => sp == Some(Ok::<Seq<RecordV>, EngineError>(b@)) && b.wf()
                        && b.dates_wf(),
                    Err(e) => (e == EngineError::RowLimit && sp is None) || (e
                        != EngineError::RowLimit && sp == Some(
                        Err::<Seq<RecordV>, EngineError>(e),
                    )),
                }
            }),
    {
        let ghost fm = sheet_formatted(*sheet);
        let ghost vals = sheet_values(*sheet);
        let mut accounting_date: Vec<Date> = Vec::new();
        let mut interest_date: Vec<Date> = Vec::new();
        let mut archive_reference: Vec<String> = Vec::new();
        let mut counter_account: Vec<String> = Vec::new();
        let mut types: Vec<String> = Vec::new();
        let mut text: Vec<String> = Vec::new();
        let mut out_of_account: Vec<i64> = Vec::new();
        let mut into_account: Vec<i64> = Vec::new();
        let mut row: u32 = 4;
        loop
            invariant_except_break
                fm == sheet_formatted(*sheet),
                vals == sheet_values(*sheet),
                4 <= row,
                interest_date@.len() == accounting_date@.len(),
                archive_reference@.len() == accounting_date@.len(),
                counter_account@.len() == accounting_date@.len(),
                types@.len() == accounting_date@.len(),
                text@.len() == accounting_date@.len(),
                out_of_account@.len() == accounting_date@.len(),
                into_account@.len() == accounting_date@.len(),
                forall|i: int|
                    0 <= i < accounting_date@.len() ==> (#[trigger] accounting_date@[i]).wf(),
                forall|i: int|
                    0 <= i < interest_date@.len() ==> (#[trigger] interest_date@[i]).wf(),
                match spec_read_bank(fm, vals, row) {
                    None => spec_read_bank(fm, vals, 4) is None,
                    Some(Err(e)) => spec_read_bank(fm, vals, 4) == Some(
                        Err::<Seq<RecordV>, EngineError>(e),
                    ),
                    Some(Ok(rest)) => spec_read_bank(fm, vals, 4) == Some(
                        Ok::<Seq<RecordV>, EngineError>(
                            Seq::new(
                                accounting_date@.len(),
                                |i: int|
                                    RecordV {
                                        accounting_date: accounting_date@[i],
                                        interest_date: interest_date@[i],
                                        archive_reference: archive_reference@[i]@,
                                        counter_account: counter_account@[i]@,
                                        types: types@[i]@,
                                        text: text@[i]@,
                                        out_of_account: out_of_account@[i] as int,
                                        into_account: into_account@[i] as int,
                                        account: Seq::<char>::empty(),
                                    },
                            ) + rest,
                        ),
                    ),
                },
            ensures
                fm == sheet_formatted(*sheet),
                vals == sheet_values(*sheet),
                interest_date@.len() == accounting_date@.len(),
                archive_reference@.len() == accounting_date@.len(),
                counter_account@.len() == accounting_date@.len(),
                types@.len() == accounting_date@.len(),
                text@.len() == accounting_date@.len(),
                out_of_account@.len() == accounting_date@.len(),
                into_account@.len() == accounting_date@.len(),
                forall|i: int|
                    0 <= i < accounting_date@.len() ==> (#[trigger] accounting_date@[i]).wf(),
                forall|i: int|
                    0 <= i < interest_date@.len() ==> (#[trigger] interest_date@[i]).wf(),
                spec_read_bank(fm, vals, 4) == Some(
                    Ok::<Seq<RecordV>, EngineError>(
                        Seq::new(
                            accounting_date@.len(),
                            |i: int|
                                RecordV {
                                    accounting_date: accounting_date@[i],
                                    interest_date: interest_date@[i],
                                    archive_reference: archive_reference@[i]@,
                                    counter_account: counter_account@[i]@,
                                    types: types@[i]@,
                                    text: text@[i]@,
                                    out_of_account: out_of_account@[i] as int,
                                    into_account: into_account@[i] as int,
                                    account: Seq::<char>::empty(),
                                },
                        ),
                    ),
                ),
            decreases u32::MAX - row,
        {
            let ghost partial = Seq::new(
                accounting_date@.len(),
                |i: int|
                    RecordV {
                        accounting_date: accounting_date@[i],
                        interest_date: interest_date@[i],
                        archive_reference: archive_reference@[i]@,
                        counter_account: counter_account@[i]@,
                        types: types@[i]@,
                        text: text@[i]@,
                        out_of_account: out_of_account@[i] as int,
                        into_account: into_account@[i] as int,
                        account: Seq::<char>::empty(),
                    },
            );
            let accounting_date_str = cell_formatted_value(sheet, 1, row);
            if accounting_date_str.as_str().is_empty() {
                proof {
                    assert(partial + Seq::<RecordV>::empty() =~= partial);
                }
                break ;
            }
            let ad = match Self::string_to_date(accounting_date_str.as_str()) {
                Ok(d) => d,
                Err(_) => {
                    return Err(EngineError::ParseAccountingDate);
                },
            };
            let interest_date_str = cell_formatted_value(sheet, 2, row);
            let id = match Self::string_to_date(interest_date_str.as_str()) {
                Ok(d) => d,
                Err(_) => {
                    return Err(EngineError::ParseInterestDate);
                },
            };
            let archive = cell_value(sheet, 3, row);
            let counter = cell_value(sheet, 4, row);
            let types_str = cell_value(sheet, 5, row);
            let text_str = cell_value(sheet, 6, row);
            let out_str = cell_value(sheet, 7, row);
            let out_cents = match parse_amount(out_str.as_str()) {
                Some(v) => v,
                None => {
                    return Err(EngineError::ParseDebit);
                },
            };
            let out_abs: i64 = if out_cents < 0 {
                -out_cents
            } else {
                out_cents
            };
            let into_str = cell_value(sheet, 8, row);
            let into_cents = match parse_amount(into_str.as_str()) {
                Some(v) => v,
                None => {
                    return Err(EngineError::ParseCredit);
                },
            };
            if row == u32::MAX {
                return Err(EngineError::RowLimit);
            }
            accounting_date.push(ad);
            interest_date.push(id);
            archive_reference.push(archive);
            counter_account.push(counter);
            types.push(types_str);
            text.push(text_str);
            out_of_account.push(out_abs);
            into_account.push(into_cents);
            proof {
                let partial2 = Seq::new(
                    accounting_date@.len(),
                    |i: int|
                        RecordV {
                            accounting_date: accounting_date@[i],
                            interest_date: interest_date@[i],
                            archive_reference: archive_reference@[i]@,
                            counter_account: counter_account@[i]@,
                            types: types@[i]@,
                            text: text@[i]@,
                            out_of_account: out_of_account@[i] as int,
                            into_account: into_account@[i] as int,
                            account: Seq::<char>::empty(),
                        },
                );
                assert(partial2 =~~= partial + seq![bank_record(fm, vals, row)]);
                let next = spec_read_bank(fm, vals, (row + 1) as u32);
                if next is Some && next->Some_0 is Ok {
                    let rest = next->Some_0->Ok_0;
                    assert(partial + (seq![bank_record(fm, vals, row)] + rest) =~= partial2 + rest);
                }
            }
            row += 1;
        }
        let sbanken = SBanken {
            accounting_date,
            interest_date,
            archive_reference,
            counter_account,
            types,
            text,
            out_of_account,
            into_account,
        };
        proof {
            assert(sbanken@ =~~= Seq::new(
                sbanken.accounting_date@.len(),
                |i: int|
                    RecordV {
                        accounting_date: sbanken.accounting_date@[i],
                        interest_date: sbanken.interest_date@[i],
                        archive_reference: sbanken.archive_reference@[i]@,
                        counter_account: sbanken.counter_account@[i]@,
                        types: sbanken.types@[i]@,
                        text: sbanken.text@[i]@,
                        out_of_account: sbanken.out_of_account@[i] as int,
                        into_account: sbanken.into_account@[i] as int,
                        account: Seq::<char>::empty(),
                    },
            ));
        }
        Ok(sbanken)
    }
}

} // verus!
