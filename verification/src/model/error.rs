//! How a run fails.

use vstd::prelude::*;
use vstd::string::*;
use crate::util::consts::{ERR_INVALID_INFILE, ERR_INVALID_OUTFILE, ERR_UNREADABLE};

verus! {

/// Why a run ended without success.
#[derive(Clone, Debug, PartialEq, Eq)]
pub enum AppError {
    /// The input selector `index` names no slot.
    InvalidInfile { index: String },
    /// The output selector `index` names no slot.
    InvalidOutfile { index: String },
    /// The run had to read the file `path`, and there is no such file.
    Unreadable { path: String },
}

/// An error, with its texts as sequences of characters.
pub enum AppErrorView {
    InvalidInfile { index: Seq<char> },
    InvalidOutfile { index: Seq<char> },
    Unreadable { path: Seq<char> },
}

impl View for AppError {
    type V = AppErrorView;

    open spec fn view(&self) -> AppErrorView {
        match *self {
            AppError::InvalidInfile { index } => AppErrorView::InvalidInfile { index: index@ },
            AppError::InvalidOutfile { index } => AppErrorView::InvalidOutfile { index: index@ },
            AppError::Unreadable { path } => AppErrorView::Unreadable { path: path@ },
        }
    }
}

/// What stands between the kind of an error and its subject in a message.
pub open spec fn at_idx() -> Seq<char> {
    seq![' ', 'a', 't', ' ', 'i', 'd', 'x', ':', ' ']
}

impl AppErrorView {
    /// The message of an error: its kind, then the index or path it is about.
    pub open spec fn message(self) -> Seq<char> {
        match self {
            AppErrorView::InvalidInfile { index } => ERR_INVALID_INFILE@ + at_idx() + index,
            AppErrorView::InvalidOutfile { index } => ERR_INVALID_OUTFILE@ + at_idx() + index,
            AppErrorView::Unreadable { path } => ERR_UNREADABLE@ + seq![':', ' '] + path,
        }
    }
}

impl AppError {
    /// The message to report this error with.
    pub fn message(&self) -> (text: String)
        ensures
            text@ == self@.message(),
    {
        proof {
            reveal_strlit(" at idx: ");
            reveal_strlit(": ");
            assert(" at idx: "@ =~= at_idx());
            assert(": "@ =~= seq![':', ' ']);
        }
        match self {
            AppError::InvalidInfile { index } => {
                let mut text: String = ERR_INVALID_INFILE.to_owned();
                text.append(" at idx: ");
                text.append(index.as_str());
                text
            },
            AppError::InvalidOutfile { index } => {
                let mut text: String = ERR_INVALID_OUTFILE.to_owned();
                text.append(" at idx: ");
                text.append(index.as_str());
                text
            },
            AppError::Unreadable { path } => {
                let mut text: String = ERR_UNREADABLE.to_owned();
                text.append(": ");
                text.append(path.as_str());
                text
            },
        }
    }
}

/// The outcome of a step that prints nothing, with its error by its view.
pub open spec fn done_view(result: Result<(), AppError>) -> Result<(), AppErrorView> {
    match result {
        Ok(_) => Ok(()),
        Err(e) => Err(e@),
    }
}

/// The outcome of a step that prints, with its text and its error by their
/// views.
pub open spec fn printed_view(result: Result<String, AppError>) -> Result<Seq<char>, AppErrorView> {
    match result {
        Ok(text) => Ok(text@),
        Err(e) => Err(e@),
    }
}

/// The status that a process ends with after a run: 0 after success, which
/// every maintenance action is, and 1 after an error.
pub open spec fn exit_status<T>(result: Result<T, AppErrorView>) -> int {
    if result is Ok {
        0
    } else {
        1
    }
}

/// The status to end the process with after a run.
pub fn exit_code(result: &Result<String, AppError>) -> (code: i32)
    ensures
        code == exit_status(printed_view(*result)),
{
    match result {
        Ok(_) => 0,
        Err(_) => 1,
    }
}

} // verus!
