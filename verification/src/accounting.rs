//! Accounts and the supported banks.

use vstd::prelude::*;
use crate::text::{spec_u64_string, u64_to_string};
use vstd::string::StringExecFns;

verus! {

/// An owning account: a display name and an account number.
#[derive(Debug, PartialEq)]
pub struct Account {
    pub name: String,
    pub number: u64,
}

/// The mathematical content of an account.
pub ghost struct AccountV {
    pub name: Seq<char>,
    pub number: int,
}

impl View for Account {
    type V = AccountV;

    open spec fn view(&self) -> AccountV {
        AccountV { name: self.name@, number: self.number as int }
    }
}

impl DeepView for Account {
    type V = AccountV;

    open spec fn deep_view(&self) -> AccountV {
        self.view()
    }
}

impl Default for Account {
    fn default() -> (r: Account)
        ensures
            r.name@ == Seq::<char>::empty(),
            r.number == 0,
    {
        Account { name: String::new(), number: 0 }
    }
}

impl Account {
    pub fn clone(account: &Account) -> (r: Account)
        ensures
            r@ == account@,
    {
        Account { name: account.name.clone(), number: account.number }
    }

    /// The account rendered as `name: number`.
    pub fn to_string(&self) -> (r: String)
        ensures
            r@ == self.name@ + ": "@ + spec_u64_string(self.number as int),
    {
        let mut out = self.name.clone();
        out.append(": ");
        let num = u64_to_string(self.number);
        out.append(num.as_str());
        out
    }

    /// An account is valid unless both its name and its number are unset.
    pub fn is_valid(&self) -> (r: bool)
        ensures
            r == !(self.name@ == Seq::<char>::empty() && self.number == 0),
    {
        if self.name.as_str().is_empty() && self.number == 0 {
            proof {
                assert(self.name@ =~= Seq::<char>::empty());
            }
            false
        } else {
            true
        }
    }
}

/// The banks whose statement layout the engine can ingest.
#[derive(PartialEq, Eq, Structural, Copy, Clone, Debug)]
pub enum Bank {
    SBanken,
}

impl Bank {
    pub fn get_banks() -> (r: Vec<Bank>)
        ensures
            r@ == seq![Bank::SBanken],
    {
        let mut v: Vec<Bank> = Vec::new();
        v.push(Bank::SBanken);
        proof {
            assert(v@ =~= seq![Bank::SBanken]);
        }
        v
    }

    pub fn to_string(bank: &Bank) -> (r: String)
        ensures
            r@ == "SBanken"@,
    {
        match bank {
            Bank::SBanken => String::from_str("SBanken"),
        }
    }
}

} // verus!
