//! The line of feedback shown at the bottom of the window.

use vstd::prelude::*;

verus! {

/// What the status line currently shows: nothing, a success message, or an
/// error message.  Drawing it is left to the program around the library.
#[derive(Clone, Debug)]
pub enum StatusBar {
    /// Nothing to report.
    Idle,
    /// A success message.
    Success(String),
    /// An error message.
    Error(String),
}

/// The status line, with the text of a message reduced to its characters.
pub ghost enum StatusView {
    /// Nothing to report.
    Idle,
    /// A success message.
    Success(Seq<char>),
    /// An error message.
    Error(Seq<char>),
}

impl View for StatusBar {
    type V = StatusView;

    open spec fn view(&self) -> StatusView {
        match self {
            StatusBar::Idle => StatusView::Idle,
            StatusBar::Success(s) => StatusView::Success(s@),
            StatusBar::Error(s) => StatusView::Error(s@),
        }
    }
}

} // verus!
