//! What can go wrong.

use vstd::prelude::*;

use crate::text::signed_decimal_text;

verus! {

/// Why the properties of a display could not be read.
#[derive(Debug)]
pub struct DisplayPropertiesError {
    /// What the system said.
    pub message: String,
}

/// Error type of the display functions.
#[derive(Debug)]
pub enum DisplayError {
    /// The properties of a display could not be read.
    Properties(DisplayPropertiesError),
    /// A call of the system failed.
    WinAPI(String),
    /// An inactive display was to become the primary one.
    PrimaryDisplay,
    /// A display, given by its name, has no settings.
    NoSettings(String),
    /// The system refused a configuration with this code.
    FailedToCommit(i32),
}

/// An error with its texts as sequences of characters.
pub enum ErrorModel {
    Properties(Seq<char>),
    WinAPI(Seq<char>),
    PrimaryDisplay,
    NoSettings(Seq<char>),
    FailedToCommit(i32),
}

impl View for DisplayError {
    type V = ErrorModel;

    open spec fn view(&self) -> ErrorModel {
        match self {
            DisplayError::Properties(error) => ErrorModel::Properties(error.message@),
            DisplayError::WinAPI(text) => ErrorModel::WinAPI(text@),
            DisplayError::PrimaryDisplay => ErrorModel::PrimaryDisplay,
            DisplayError::NoSettings(name) => ErrorModel::NoSettings(name@),
            DisplayError::FailedToCommit(code) => ErrorModel::FailedToCommit(*code),
        }
    }
}

impl ErrorModel {
    /// The sentence for an error.
    pub open spec fn sentence(self) -> Seq<char> {
        match self {
            ErrorModel::Properties(_) => "Error in DisplayProperties"@,
            ErrorModel::WinAPI(text) => "Error when calling the Windows API: "@ + text,
            ErrorModel::PrimaryDisplay => "Only active displays can used as a primary display"@,
            ErrorModel::NoSettings(name) => "Display "@ + name + " has no settings"@,
            ErrorModel::FailedToCommit(code) => "Failed to commit the changes; Returned code: "@
                + crate::text::signed_decimal(code as int),
        }
    }
}

impl DisplayError {
    /// Writes the sentence for the error.
    pub fn message(&self) -> (text: String)
        ensures
            text@ == self@.sentence(),
    {
        match self {
            DisplayError::Properties(_) => "Error in DisplayProperties".to_owned(),
            DisplayError::WinAPI(text) => {
                "Error when calling the Windows API: ".to_owned().concat(text.as_str())
            },
            DisplayError::PrimaryDisplay => {
                "Only active displays can used as a primary display".to_owned()
            },
            DisplayError::NoSettings(name) => {
                "Display ".to_owned().concat(name.as_str()).concat(" has no settings")
            },
            DisplayError::FailedToCommit(code) => {
                let code = signed_decimal_text(*code);
                "Failed to commit the changes; Returned code: ".to_owned().concat(code.as_str())
            },
        }
    }
}

/// The error for a failed call: what was tried, and what the system said.
pub(crate) fn call_failed(what: &str, said: &str) -> (error: DisplayError)
    ensures
        error@ == ErrorModel::WinAPI(what@ + said@),
{
    DisplayError::WinAPI(what.to_owned().concat(said))
}

/// What each error says: the text, name or code that it carries is part of the
/// sentence, but for the properties error, whose cause is told apart.
pub proof fn law_sentences(error: DisplayError)
    ensures
        match error {
            DisplayError::Properties(_) => error@.sentence() == "Error in DisplayProperties"@,
            DisplayError::WinAPI(text) => error@.sentence()
                == "Error when calling the Windows API: "@ + text@,
            DisplayError::PrimaryDisplay => error@.sentence()
                == "Only active displays can used as a primary display"@,
            DisplayError::NoSettings(name) => error@.sentence() == "Display "@ + name@
                + " has no settings"@,
            DisplayError::FailedToCommit(code) => error@.sentence()
                == "Failed to commit the changes; Returned code: "@ + crate::text::signed_decimal(
                code as int,
            ),
        },
{
}

/// Two errors with the same model are of the same kind and carry the same.
pub proof fn law_error_model(a: DisplayError, b: DisplayError)
    requires
        a@ == b@,
    ensures
        a is PrimaryDisplay <==> b is PrimaryDisplay,
        a matches DisplayError::Properties(x) ==> b matches DisplayError::Properties(y) && x.message@
            == y.message@,
        a matches DisplayError::WinAPI(x) ==> b matches DisplayError::WinAPI(y) && x@ == y@,
        a matches DisplayError::NoSettings(x) ==> b matches DisplayError::NoSettings(y) && x@ == y@,
        a matches DisplayError::FailedToCommit(x) ==> b matches DisplayError::FailedToCommit(y)
            && x == y,
{
}

} // verus!
