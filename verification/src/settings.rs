//! The data side of the settings surface: path comparison, the flash
//! error message, and the holders for file and workbook information.

use vstd::prelude::*;
use crate::accounting::Account;
use crate::categories::Categories;
use crate::errors::EngineError;
use crate::text::{replace_char, spec_replace_char};
use vstd::string::StringExecFns;

verus! {

/// A path with every backslash replaced by a forward slash.
pub open spec fn spec_normalized_path(p: Seq<char>) -> Seq<char> {
    spec_replace_char(p, '\\', "/"@)
}

/// Normalizes a path's separators to forward slashes.
pub fn normalize_path(path: &str) -> (r: String)
    ensures
        r@ == spec_normalized_path(path@),
{
    replace_char(path, '\\', "/")
}

/// Whether two paths name the same file, comparing their normalized
/// forms; a path whose file does not exist compares as the empty string,
/// and when neither file exists the comparison fails.  The callers pass
/// in whether each path names an existing file; those flags are taken on
/// trust.
pub fn same_path(path1: &str, path1_is_file: bool, path2: &str, path2_is_file: bool) -> (r: Result<
    bool,
    EngineError,
>)
    ensures
        ({
            let p1 = if path1_is_file {
                spec_normalized_path(path1@)
            } else {
                Seq::<char>::empty()
            };
            let p2 = if path2_is_file {
                spec_normalized_path(path2@)
            } else {
                Seq::<char>::empty()
            };
            match r {
                Ok(b) => (path1_is_file || path2_is_file) && b == (p1 == p2),
                Err(e) => !path1_is_file && !path2_is_file && e == EngineError::NotFound,
            }
        }),
{
    let p1 = if path1_is_file {
        (normalize_path(path1), true)
    } else {
        (String::new(), false)
    };
    let p2 = if path2_is_file {
        (normalize_path(path2), true)
    } else {
        (String::new(), false)
    };
    if !p1.1 && !p2.1 {
        return Err(EngineError::NotFound);
    }
    if p1.0 == p2.0 {
        return Ok(true);
    }
    Ok(false)
}

/// The message displayed at the settings surface for a failed pass.
pub fn get_flash_error(error: &str) -> (r: String)
    ensures
        r@ == "error: "@ + error@,
{
    let mut out = String::from_str("error: ");
    out.append(error);
    out
}

/// The chosen workbook and transaction files, and the sheet names the
/// engine expects to find.
#[derive(Debug)]
pub struct FileInformation {
    pub workbook_file: String,
    pub transaction_file: String,
    pub sheet_names: Vec<String>,
}

impl Default for FileInformation {
    fn default() -> (r: FileInformation)
        ensures
            r.workbook_file@ == Seq::<char>::empty(),
            r.transaction_file@ == Seq::<char>::empty(),
            r.sheet_names@.len() == 3,
            r.sheet_names@[0]@ == "Kontoutkskrift"@,
            r.sheet_names@[1]@ == "Kategorier"@,
            r.sheet_names@[2]@ == "Informasjon"@,
    {
        let mut sheet_names: Vec<String> = Vec::new();
        sheet_names.push(String::from_str("Kontoutkskrift"));
        sheet_names.push(String::from_str("Kategorier"));
        sheet_names.push(String::from_str("Informasjon"));
        FileInformation {
            workbook_file: String::new(),
            transaction_file: String::new(),
            sheet_names,
        }
    }
}

/// The account directory and category rules loaded from the workbook,
/// and whether they are up to date with the chosen file.
#[derive(Debug)]
pub struct WorkbookInformation {
    pub accounts: Vec<Account>,
    pub active_account: Account,
    pub categories: Categories,
    pub updated: bool,
}

impl Default for WorkbookInformation {
    fn default() -> (r: WorkbookInformation)
        ensures
            r.accounts@.len() == 0,
            r.active_account.name@ == Seq::<char>::empty(),
            r.active_account.number == 0,
            r.categories.from_text@.len() == 0,
            r.categories.from_type@.len() == 0,
            !r.updated,
    {
        WorkbookInformation {
            accounts: Vec::new(),
            active_account: Account { name: String::new(), number: 0 },
            categories: Categories { from_text: Vec::new(), from_type: Vec::new() },
            updated: false,
        }
    }
}

impl WorkbookInformation {
    /// Loads the freshly read account directory and rule set, if any.
    pub fn init(&mut self, accounts: Option<Vec<Account>>, categories: Option<Categories>)
        ensures
            final(self).updated,
            final(self).categories == (match categories {
                Some(c) => c,
                None => final(self).categories,
            }),
            categories is None ==> final(self).categories.from_text@.len() == 0 && final(self).categories.from_type@.len() == 0,
            match accounts {
                Some(accs) => final(self).accounts == accs && (accs@.len() >= 1 ==> final(self).active_account@ == accs@[0]@) && (accs@.len() == 0 ==> final(self).active_account
                    == old(self).active_account),
                None => final(self).accounts@.len() == 0 && final(self).active_account == old(self).active_account,
            },
    {
        self.update_all_workbook_information(accounts, categories)
    }

    /// Replaces the account directory and rule set and marks them fresh.
    pub fn update_all_workbook_information(
        &mut self,
        accounts: Option<Vec<Account>>,
        categories: Option<Categories>,
    )
        ensures
            final(self).updated,
            final(self).categories == (match categories {
                Some(c) => c,
                None => final(self).categories,
            }),
            categories is None ==> final(self).categories.from_text@.len() == 0 && final(self).categories.from_type@.len() == 0,
            match accounts {
                Some(accs) => final(self).accounts == accs && (accs@.len() >= 1 ==> final(self).active_account@ == accs@[0]@) && (accs@.len() == 0 ==> final(self).active_account
                    == old(self).active_account),
                None => final(self).accounts@.len() == 0 && final(self).active_account == old(self).active_account,
            },
    {
        self.update_accounts(accounts);
        self.update_categories(categories);
        self.updated = true;
    }

    /// Replaces the rule set; an unreadable rule sheet leaves it empty.
    pub fn update_categories(&mut self, categories: Option<Categories>)
        ensures
            final(self).categories == (match categories {
                Some(c) => c,
                None => final(self).categories,
            }),
            categories is None ==> final(self).categories.from_text@.len() == 0 && final(self).categories.from_type@.len() == 0,
            final(self).accounts == old(self).accounts,
            final(self).active_account == old(self).active_account,
            final(self).updated == old(self).updated,
    {
        match categories {
            Some(c) => {
                self.categories = c;
            },
            None => {
                self.categories = Categories { from_text: Vec::new(), from_type: Vec::new() };
            },
        }
    }

    /// Replaces the account directory; the first account, if any, becomes
    /// active.  An unreadable directory leaves the list empty.
    pub fn update_accounts(&mut self, accounts: Option<Vec<Account>>)
        ensures
            match accounts {
                Some(accs) => final(self).accounts == accs && (accs@.len() >= 1 ==> final(self).active_account@ == accs@[0]@) && (accs@.len() == 0 ==> final(self).active_account
                    == old(self).active_account),
                None => final(self).accounts@.len() == 0 && final(self).active_account == old(self).active_account,
            },
            final(self).categories == old(self).categories,
            final(self).updated == old(self).updated,
    {
        let accounts_vec: Vec<Account> = match accounts {
            Some(a) => a,
            None => Vec::new(),
        };
        if accounts_vec.len() >= 1 {
            self.active_account = Account::clone(&accounts_vec[0]);
        }
        self.accounts = accounts_vec;
    }

    /// Clears the account directory and the active account.
    pub fn reset_accounts(&mut self)
        ensures
            final(self).accounts@.len() == 0,
            final(self).active_account.name@ == Seq::<char>::empty(),
            final(self).active_account.number == 0,
            final(self).categories == old(self).categories,
            final(self).updated == old(self).updated,
    {
        self.active_account = Account { name: String::new(), number: 0 };
        self.accounts = Vec::new();
    }

    /// A copy of the account directory.
    pub fn get_accounts(&self) -> (r: Vec<Account>)
        ensures
            r.deep_view() == self.accounts.deep_view(),
    {
        let mut res: Vec<Account> = Vec::new();
        let mut i: usize = 0;
        while i < self.accounts.len()
            invariant
                i <= self.accounts@.len(),
                res@.len() == i,
                forall|j: int| 0 <= j < i ==> (#[trigger] res@[j])@ == self.accounts@[j]@,
            decreases self.accounts@.len() - i,
        {
            let account = &self.accounts[i];
            res.push(Account { name: account.name.clone(), number: account.number });
            i += 1;
        }
        proof {
            assert(res.deep_view() =~= self.accounts.deep_view());
        }
        res
    }
}

} // verus!
