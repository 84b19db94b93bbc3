//! The column-parallel batch of ledger records, its length invariant, and
//! the deduplicator that subtracts one batch from another by full-field
//! equality.

use vstd::prelude::*;
use crate::dates::Date;
use crate::errors::EngineError;

verus! {

/// The mathematical content of one ledger record.
#[verifier::ext_equal]
pub ghost struct RecordV {
    pub accounting_date: Date,
    pub interest_date: Date,
    pub archive_reference: Seq<char>,
    pub counter_account: Seq<char>,
    pub types: Seq<char>,
    pub text: Seq<char>,
    pub out_of_account: int,
    pub into_account: int,
    pub account: Seq<char>,
}

/// One batch of records, one equal-length column per attribute.  Amount
/// columns hold hundredths of the currency; `out_of_account` is the debit
/// column and `into_account` the credit column.
#[derive(Debug, PartialEq)]
pub struct WorkbookInfo {
    pub accounting_date: Vec<Date>,
    pub interest_date: Vec<Date>,
    pub archive_reference: Vec<String>,
    pub counter_account: Vec<String>,
    pub types: Vec<String>,
    pub text: Vec<String>,
    pub out_of_account: Vec<i64>,
    pub into_account: Vec<i64>,
    pub account: Vec<String>,
}

impl WorkbookInfo {
    /// All attribute columns have the same length.
    pub open spec fn wf(self) -> bool {
        &&& self.interest_date@.len() == self.accounting_date@.len()
        &&& self.archive_reference@.len() == self.accounting_date@.len()
        &&& self.counter_account@.len() == self.accounting_date@.len()
        &&& self.types@.len() == self.accounting_date@.len()
        &&& self.text@.len() == self.accounting_date@.len()
        &&& self.out_of_account@.len() == self.accounting_date@.len()
        &&& self.into_account@.len() == self.accounting_date@.len()
        &&& self.account@.len() == self.accounting_date@.len()
    }
}

/// The record sequence denoted by a family of column vectors.
pub open spec fn columns_view(
    accounting_date: Seq<Date>,
    interest_date: Seq<Date>,
    archive_reference: Seq<String>,
    counter_account: Seq<String>,
    types: Seq<String>,
    text: Seq<String>,
    out_of_account: Seq<i64>,
    into_account: Seq<i64>,
    account: Seq<String>,
) -> Seq<RecordV> {
    Seq::new(
        accounting_date.len(),
        |i: int|
            RecordV {
                accounting_date: accounting_date[i],
                interest_date: interest_date[i],
                archive_reference: archive_reference[i]@,
                counter_account: counter_account[i]@,
                types: types[i]@,
                text: text[i]@,
                out_of_account: out_of_account[i] as int,
                into_account: into_account[i] as int,
                account: account[i]@,
            },
    )
}

impl View for WorkbookInfo {
    type V = Seq<RecordV>;

    open spec fn view(&self) -> Seq<RecordV> {
        columns_view(
            self.accounting_date@,
            self.interest_date@,
            self.archive_reference@,
            self.counter_account@,
            self.types@,
            self.text@,
            self.out_of_account@,
            self.into_account@,
            self.account@,
        )
    }
}

impl WorkbookInfo {
    /// Every date in the batch is a real calendar date.
    pub open spec fn dates_wf(self) -> bool {
        &&& forall|i: int|
            0 <= i < self.accounting_date@.len() ==> (#[trigger] self.accounting_date@[i]).wf()
        &&& forall|i: int|
            0 <= i < self.interest_date@.len() ==> (#[trigger] self.interest_date@[i]).wf()
    }
}

/// Every column vector has the length of the first; vacuously true of an
/// empty family.
pub fn all_same_length<T>(vec: &Vec<&Vec<T>>) -> (r: bool)
    ensures
        r == (forall|i: int| 0 <= i < vec@.len() ==> (#[trigger] vec@[i]@).len() == vec@[0]@.len()),
{
    let mut i: usize = 0;
    while i < vec.len()
        invariant
            i <= vec@.len(),
            forall|j: int| 0 <= j < i ==> (#[trigger] vec@[j]@).len() == vec@[0]@.len(),
        decreases vec@.len() - i,
    {
        if vec[i].len() != vec[0].len() {
            return false;
        }
        i += 1;
    }
    true
}

impl WorkbookInfo {
    /// Builds a batch from its columns; fails with a validation error
    /// exactly when any two columns differ in length.
    pub fn new(
        accounting_date: Vec<Date>,
        interest_date: Vec<Date>,
        archive_reference: Vec<String>,
        counter_account: Vec<String>,
        types: Vec<String>,
        text: Vec<String>,
        out_of_account: Vec<i64>,
        into_account: Vec<i64>,
        account: Vec<String>,
    ) -> (r: Result<WorkbookInfo, EngineError>)
        ensures
            r is Ok <==> {
                &&& interest_date@.len() == accounting_date@.len()
                &&& archive_reference@.len() == accounting_date@.len()
                &&& counter_account@.len() == accounting_date@.len()
                &&& types@.len() == accounting_date@.len()
                &&& text@.len() == accounting_date@.len()
                &&& out_of_account@.len() == accounting_date@.len()
                &&& into_account@.len() == accounting_date@.len()
                &&& account@.len() == accounting_date@.len()
            },
            match r {
                Ok(w) => {
                    &&& w.wf()
                    &&& w.accounting_date@ == accounting_date@
                    &&& w.interest_date@ == interest_date@
                    &&& w.archive_reference@ == archive_reference@
                    &&& w.counter_account@ == counter_account@
                    &&& w.types@ == types@
                    &&& w.text@ == text@
                    &&& w.out_of_account@ == out_of_account@
                    &&& w.into_account@ == into_account@
                    &&& w.account@ == account@
                },
                Err(e) => e == EngineError::Validation,
            },
    {
        let date_vec = vec![&accounting_date, &interest_date];
        let string_vec = vec![&archive_reference, &counter_account, &types, &text, &account];
        let amount_vec = vec![&out_of_account, &into_account];
        if !all_same_length(&date_vec) || !all_same_length(&string_vec) || !all_same_length(
            &amount_vec,
        ) {
            return Err(EngineError::Validation);
        }
        if date_vec[0].len() != string_vec[0].len() || date_vec[0].len() != amount_vec[0].len() {
            return Err(EngineError::Validation);
        }
        Ok(
            WorkbookInfo {
                accounting_date,
                interest_date,
                archive_reference,
                counter_account,
                types,
                text,
                out_of_account,
                into_account,
                account,
            },
        )
    }
}

/// Every record's dates are real calendar dates and its amounts stay
/// within the engine's amount limit.
pub open spec fn records_wf(s: Seq<RecordV>) -> bool {
    forall|i: int|
        0 <= i < s.len() ==> {
            &&& (#[trigger] s[i]).accounting_date.wf()
            &&& s[i].interest_date.wf()
            &&& -crate::amounts::AMOUNT_LIMIT <= s[i].out_of_account <= crate::amounts::AMOUNT_LIMIT
            &&& -crate::amounts::AMOUNT_LIMIT <= s[i].into_account <= crate::amounts::AMOUNT_LIMIT
        }
}

/// The records of `a` that have no full-field match anywhere in `b`, in
/// the order of `a`.
pub open spec fn batch_subtract(a: Seq<RecordV>, b: Seq<RecordV>) -> Seq<RecordV> {
    a.filter(|r: RecordV| !b.contains(r))
}

pub proof fn lemma_filter_empty<A>(s: Seq<A>, p: spec_fn(A) -> bool)
    requires
        forall|i: int| 0 <= i < s.len() ==> !p(#[trigger] s[i]),
    ensures
        s.filter(p).len() == 0,
    decreases s.len(),
{
    reveal(Seq::filter);
    if s.len() > 0 {
        lemma_filter_empty(s.drop_last(), p);
        assert(s.last() == s[s.len() - 1]);
        assert(!p(s.last()));
        assert(s.filter(p) == s.drop_last().filter(p));
    }
}

pub proof fn lemma_filter_all<A>(s: Seq<A>, p: spec_fn(A) -> bool)
    requires
        forall|i: int| 0 <= i < s.len() ==> p(#[trigger] s[i]),
    ensures
        s.filter(p) == s,
    decreases s.len(),
{
    reveal(Seq::filter);
    if s.len() > 0 {
        lemma_filter_all(s.drop_last(), p);
        assert(s.last() == s[s.len() - 1]);
        assert(p(s.last()));
        assert(s.filter(p) == s.drop_last().filter(p).push(s.last()));
        assert(s.filter(p) =~= s);
    }
}

pub proof fn lemma_filter_sat<A>(s: Seq<A>, p: spec_fn(A) -> bool)
    ensures
        forall|i: int| 0 <= i < s.filter(p).len() ==> p(#[trigger] s.filter(p)[i]),
    decreases s.len(),
{
    reveal(Seq::filter);
    if s.len() > 0 {
        lemma_filter_sat(s.drop_last(), p);
        assert forall|i: int| 0 <= i < s.filter(p).len() implies p(#[trigger] s.filter(p)[i]) by {
            if i < s.filter(p).len() - 1 {
                assert(s.drop_last().filter(p)[i] == s.filter(p)[i]);
            }
        }
    }
}

proof fn lemma_filter_elements<A>(s: Seq<A>, p: spec_fn(A) -> bool)
    ensures
        forall|i: int| 0 <= i < s.filter(p).len() ==> s.contains(#[trigger] s.filter(p)[i]),
    decreases s.len(),
{
    reveal(Seq::filter);
    if s.len() > 0 {
        lemma_filter_elements(s.drop_last(), p);
        let f = s.filter(p);
        let fd = s.drop_last().filter(p);
        assert forall|i: int| 0 <= i < f.len() implies s.contains(#[trigger] f[i]) by {
            if i < fd.len() {
                assert(f[i] == fd[i]);
                assert(s.drop_last().contains(fd[i]));
                let j = choose|j: int| 0 <= j < s.drop_last().len() && s.drop_last()[j] == fd[i];
                assert(s[j] == f[i]);
            } else {
                assert(f[i] == s.last());
                assert(s[s.len() - 1] == f[i]);
            }
        }
    }
}

/// Subtraction keeps only rows of the minuend, so well-formed records
/// stay well-formed.
pub proof fn lemma_subtract_preserves_wf(a: Seq<RecordV>, b: Seq<RecordV>)
    requires
        records_wf(a),
    ensures
        records_wf(batch_subtract(a, b)),
{
    let p = |r: RecordV| !b.contains(r);
    lemma_filter_elements(a, p);
    let f = a.filter(p);
    assert forall|i: int|
        0 <= i < f.len() implies {
        &&& (#[trigger] f[i]).accounting_date.wf()
        &&& f[i].interest_date.wf()
        &&& -crate::amounts::AMOUNT_LIMIT <= f[i].out_of_account <= crate::amounts::AMOUNT_LIMIT
        &&& -crate::amounts::AMOUNT_LIMIT <= f[i].into_account <= crate::amounts::AMOUNT_LIMIT
    } by {
        assert(a.contains(f[i]));
        let j = choose|j: int| 0 <= j < a.len() && a[j] == f[i];
        assert(a[j] == f[i]);
    }
}

/// Law: subtracting a batch from itself removes every row, since each row
/// matches itself.
pub proof fn lemma_subtract_self_empty(a: Seq<RecordV>)
    ensures
        batch_subtract(a, a).len() == 0,
{
    assert forall|i: int| 0 <= i < a.len() implies !((|r: RecordV| !a.contains(r))(a[i])) by {
        assert(a.contains(a[i]));
    }
    reveal(Seq::filter);
    lemma_filter_empty(a, |r: RecordV| !a.contains(r));
}

/// Law: subtracting a batch twice gives the same result as subtracting it
/// once — every surviving row already has no match in the subtrahend.
pub proof fn lemma_subtract_idempotent(a: Seq<RecordV>, b: Seq<RecordV>)
    ensures
        batch_subtract(batch_subtract(a, b), b) == batch_subtract(a, b),
{
    reveal(Seq::filter);
    let p = |r: RecordV| !b.contains(r);
    lemma_filter_sat(a, p);
    lemma_filter_all(a.filter(p), p);
}

/// Subtracts `wb2` from `wb1`: keeps, in order, exactly the rows of `wb1`
/// whose every attribute differs somewhere from every row of `wb2`.
pub fn remove_duplicates(wb1: WorkbookInfo, wb2: WorkbookInfo) -> (r: WorkbookInfo)
    requires
        wb1.wf(),
        wb2.wf(),
    ensures
        r.wf(),
        r@ == batch_subtract(wb1@, wb2@),
{
    let mut wb = WorkbookInfo {
        accounting_date: Vec::new(),
        interest_date: Vec::new(),
        archive_reference: Vec::new(),
        counter_account: Vec::new(),
        types: Vec::new(),
        text: Vec::new(),
        out_of_account: Vec::new(),
        into_account: Vec::new(),
        account: Vec::new(),
    };
    let n1 = wb1.accounting_date.len();
    let n2 = wb2.accounting_date.len();
    let mut i: usize = 0;
    while i < n1
        invariant
            wb1.wf(),
            wb2.wf(),
            n1 == wb1.accounting_date@.len(),
            n2 == wb2.accounting_date@.len(),
            i <= n1,
            wb.wf(),
            wb@ == batch_subtract(wb1@.subrange(0, i as int), wb2@),
        decreases n1 - i,
    {
        let mut same = false;
        let mut j: usize = 0;
        while j < n2
            invariant_except_break
                wb1.wf(),
                wb2.wf(),
                n1 == wb1.accounting_date@.len(),
                n2 == wb2.accounting_date@.len(),
                i < n1,
                j <= n2,
                !same,
                forall|q: int| 0 <= q < j ==> wb2@[q] != wb1@[i as int],
            ensures
                wb1.wf(),
                wb2.wf(),
                n1 == wb1.accounting_date@.len(),
                n2 == wb2.accounting_date@.len(),
                i < n1,
                same == wb2@.contains(wb1@[i as int]),
            decreases n2 - j,
        {
            if wb1.account[i] == wb2.account[j] && wb1.accounting_date[i] == wb2.accounting_date[j]
                && wb1.interest_date[i] == wb2.interest_date[j] && wb1.archive_reference[i]
                == wb2.archive_reference[j] && wb1.counter_account[i] == wb2.counter_account[j]
                && wb1.types[i] == wb2.types[j] && wb1.text[i] == wb2.text[j]
                && wb1.out_of_account[i] == wb2.out_of_account[j] && wb1.into_account[i]
                == wb2.into_account[j] {
                same = true;
                proof {
                    assert(wb1@[i as int] =~= wb2@[j as int]);
                    assert(wb2@.contains(wb1@[i as int]));
                }
                break ;
            }
            j += 1;
        }
        proof {
            reveal(Seq::filter);
            let prefix = wb1@.subrange(0, i as int);
            let next = wb1@.subrange(0, i + 1);
            assert(next =~= prefix.push(wb1@[i as int]));
            assert(next.drop_last() =~= prefix);
            assert(next.last() == wb1@[i as int]);
            let p = |r: RecordV| !wb2@.contains(r);
            if p(next.last()) {
                assert(batch_subtract(next, wb2@) == batch_subtract(prefix, wb2@).push(
                    wb1@[i as int],
                ));
            } else {
                assert(batch_subtract(next, wb2@) == batch_subtract(prefix, wb2@));
            }
        }
        if !same {
            wb.accounting_date.push(wb1.accounting_date[i]);
            wb.interest_date.push(wb1.interest_date[i]);
            wb.archive_reference.push(wb1.archive_reference[i].clone());
            wb.counter_account.push(wb1.counter_account[i].clone());
            wb.types.push(wb1.types[i].clone());
            wb.text.push(wb1.text[i].clone());
            wb.out_of_account.push(wb1.out_of_account[i]);
            wb.into_account.push(wb1.into_account[i]);
            wb.account.push(wb1.account[i].clone());
            proof {
                assert(wb@ =~~= batch_subtract(wb1@.subrange(0, i + 1), wb2@));
            }
        } else {
            proof {
                assert(wb@ =~~= batch_subtract(wb1@.subrange(0, i + 1), wb2@));
            }
        }
        i += 1;
    }
    proof {
        assert(wb1@.subrange(0, n1 as int) =~= wb1@);
    }
    wb
}

} // verus!
