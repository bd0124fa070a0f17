use vstd::prelude::*;
use vstd::string::*;

use crate::text::{is_blank, is_blank_str, trim, trim_str};

verus! {

/// A team account: the credentials one simulated participant logs in with.
#[derive(Debug, Clone)]
pub struct TeamCredential {
    pub username: String,
    pub password: String,
}

/// One row of the team CSV file (`id,username,password`), its fields as the CSV reader
/// hands them over; the `id` column is read but not used.
#[derive(Debug, Clone)]
pub struct TeamCsvRow {
    pub username: String,
    pub password: String,
}

/// Why the team CSV rows give no credentials. Rows are numbered as in the file, the
/// header being row 1.
#[derive(Debug, Clone, PartialEq, Eq)]
pub enum TeamCsvError {
    /// The row could not be read as `id,username,password`.
    UnreadableRow { row: usize },
    /// The row's username is empty after trimming.
    EmptyUsername { row: usize },
    /// The row's password is empty after trimming.
    EmptyPassword { row: usize },
    /// The file holds no rows at all.
    NoUsableRows,
}

/// The error that row `index` (counted from 0 among the data rows) raises, if any.
pub open spec fn row_error(row: Option<TeamCsvRow>, index: int) -> Option<TeamCsvError> {
    match row {
        None => Some(TeamCsvError::UnreadableRow { row: (index + 2) as usize }),
        Some(r) => if is_blank(r.username@) {
            Some(TeamCsvError::EmptyUsername { row: (index + 2) as usize })
        } else if is_blank(r.password@) {
            Some(TeamCsvError::EmptyPassword { row: (index + 2) as usize })
        } else {
            None
        },
    }
}

/// The first error among the rows from `index` on.
pub open spec fn first_row_error(rows: Seq<Option<TeamCsvRow>>, index: int) -> Option<TeamCsvError>
    decreases rows.len() - index,
{
    if index < 0 || index >= rows.len() {
        None
    } else {
        match row_error(rows[index], index) {
            Some(e) => Some(e),
            None => first_row_error(rows, index + 1),
        }
    }
}

/// The credential that a good row gives: its fields trimmed.
pub open spec fn row_credential(row: Option<TeamCsvRow>, cred: TeamCredential) -> bool {
    match row {
        Some(r) => cred.username@ == trim(r.username@) && cred.password@ == trim(r.password@),
        None => false,
    }
}

/// A row that gives a credential: readable, with a username and a password that are not
/// blank.
pub open spec fn good_row(row: Option<TeamCsvRow>) -> bool {
    row matches Some(r) && !is_blank(r.username@) && !is_blank(r.password@)
}

proof fn lemma_good_rows_skipped(rows: Seq<Option<TeamCsvRow>>, from: int, k: int)
    requires
        0 <= from <= k <= rows.len(),
        forall|j: int| from <= j < k ==> good_row(#[trigger] rows[j]),
    ensures
        first_row_error(rows, from) == first_row_error(rows, k),
    decreases k - from,
{
    if from < k {
        assert(good_row(rows[from]));
        lemma_good_rows_skipped(rows, from + 1, k);
    }
}

/// Law: the first row that gives no credential decides the error, numbered as its line in
/// the file (the header is line 1, so data row `k`, counted from 0, is line `k + 2`): an
/// unreadable row, else a blank username, else a blank password. Rows that all give
/// credentials raise no error.
pub proof fn law_first_bad_row_is_reported(rows: Seq<Option<TeamCsvRow>>, k: int)
    requires
        0 <= k <= rows.len(),
        rows.len() + 2 <= usize::MAX,
        forall|j: int| 0 <= j < k ==> good_row(#[trigger] rows[j]),
    ensures
        k == rows.len() ==> first_row_error(rows, 0) is None,
        k < rows.len() && rows[k] is None ==> first_row_error(rows, 0) == Some(
            TeamCsvError::UnreadableRow { row: (k + 2) as usize },
        ),
        k < rows.len() && rows[k] is Some && is_blank(rows[k]->0.username@) ==> first_row_error(rows, 0) == Some(
            TeamCsvError::EmptyUsername { row: (k + 2) as usize },
        ),
        k < rows.len() && rows[k] is Some && !is_blank(rows[k]->0.username@) && is_blank(rows[k]->0.password@)
            ==> first_row_error(rows, 0) == Some(TeamCsvError::EmptyPassword { row: (k + 2) as usize }),
{
    lemma_good_rows_skipped(rows, 0, k);
}

/// The team credentials that the rows of the team CSV file give, in file order: every
/// row must be readable and have a non-blank username and password (both are trimmed),
/// and there must be at least one row. The first offending row decides the error.
pub fn load_team_credentials(rows: &Vec<Option<TeamCsvRow>>) -> (result: Result<
    Vec<TeamCredential>,
    TeamCsvError,
>)
    requires
        rows@.len() + 2 <= usize::MAX,
    ensures
        match first_row_error(rows@, 0) {
            Some(e) => result == Err::<Vec<TeamCredential>, TeamCsvError>(e),
            None => if rows@.len() == 0 {
                result == Err::<Vec<TeamCredential>, TeamCsvError>(TeamCsvError::NoUsableRows)
            } else {
                result is Ok && result->Ok_0@.len() == rows@.len() && forall|i: int|
                    0 <= i < rows@.len() ==> row_credential(rows@[i], #[trigger] result->Ok_0@[i])
            },
        },
{
    let mut creds: Vec<TeamCredential> = Vec::new();
    let mut i: usize = 0;
    while i < rows.len()
        invariant
            i <= rows@.len(),
            rows@.len() + 2 <= usize::MAX,
            first_row_error(rows@, 0) == first_row_error(rows@, i as int),
            creds@.len() == i,
            forall|k: int| 0 <= k < i ==> row_credential(rows@[k], #[trigger] creds@[k]),
        decreases rows@.len() - i,
    {
        match &rows[i] {
            None => {
                return Err(TeamCsvError::UnreadableRow { row: i + 2 });
            },
            Some(row) => {
                let username = trim_str(row.username.as_str());
                let password = trim_str(row.password.as_str());
                if is_blank_str(row.username.as_str()) {
                    return Err(TeamCsvError::EmptyUsername { row: i + 2 });
                }
                if is_blank_str(row.password.as_str()) {
                    return Err(TeamCsvError::EmptyPassword { row: i + 2 });
                }
                creds.push(
                    TeamCredential {
                        username: String::from_str(username),
                        password: String::from_str(password),
                    },
                );
            },
        }
        i = i + 1;
    }
    if creds.len() == 0 {
        return Err(TeamCsvError::NoUsableRows);
    }
    Ok(creds)
}

} // verus!
