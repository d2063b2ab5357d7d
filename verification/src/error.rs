//! The ways in which reading the portal's pages can fail.

use vstd::prelude::*;

verus! {

/// Why a page of the portal could not be used.
#[derive(Debug, Clone, Copy, PartialEq, Eq, Structural)]
pub enum GradesError {
    /// A page is longer than the parser takes.
    PageTooLong,
    /// A selector was not accepted by the selector parser.
    BadSelector,
    /// A hidden input of the login page has no `name` or no `value`.
    MalformedPage,
    /// The reply to the login does not say that it succeeded.
    AuthenticationFailed,
    /// The course list holds no table of grades.
    TableNotFound,
    /// A row of the table of grades has cells, but fewer than four.
    RowShape,
    /// The course of a record that counts has no fourth word, or one that is
    /// not read as a number.
    CreditParse,
}

impl GradesError {
    /// A sentence that names the failure.
    pub fn message(&self) -> (text: String)
        ensures
            text@ == self.message_text(),
    {
        match self {
            GradesError::PageTooLong => "The page is too long!".to_owned(),
            GradesError::BadSelector => "Could not parse a selector!".to_owned(),
            GradesError::MalformedPage => "A hidden field lacks its name or value!".to_owned(),
            GradesError::AuthenticationFailed => "Could not authenticate!".to_owned(),
            GradesError::TableNotFound => "Could not find table!".to_owned(),
            GradesError::RowShape => "A row of the table has too few cells!".to_owned(),
            GradesError::CreditParse => "Could not parse the credits of a course!".to_owned(),
        }
    }

    /// The text of `message`.
    pub open spec fn message_text(&self) -> Seq<char> {
        match self {
            GradesError::PageTooLong => "The page is too long!"@,
            GradesError::BadSelector => "Could not parse a selector!"@,
            GradesError::MalformedPage => "A hidden field lacks its name or value!"@,
            GradesError::AuthenticationFailed => "Could not authenticate!"@,
            GradesError::TableNotFound => "Could not find table!"@,
            GradesError::RowShape => "A row of the table has too few cells!"@,
            GradesError::CreditParse => "Could not parse the credits of a course!"@,
        }
    }
}

} // verus!
