//! Errors of the runner.

use crate::text;
use vstd::prelude::*;

verus! {

/// Root error type.
#[derive(Debug)]
pub enum KirkError {
    /// Plugins operations have failed.
    Plugin(String),
    /// Error during channels communication.
    Communication(String),
    /// Error in the system under test.
    Sut(String),
    /// Kernel panic.
    KernelPanic(String),
    /// Kernel is tainted.
    KernelTainted(String),
    /// Kernel is not responding anymore.
    KernelTimeout(String),
    /// Error inside a framework.
    Framework(String),
    /// Error during exporter operations.
    Exporter(String),
    /// Error during LTX execution.
    Ltx(String),
    /// Error during scheduler operations.
    Scheduler(String),
    /// Error during session operations.
    Session(String),
}

/// What an error is, with its message as a sequence of characters.
#[verifier::ext_equal]
pub enum ErrorView {
    /// Plugins operations have failed.
    Plugin(Seq<char>),
    /// Error during channels communication.
    Communication(Seq<char>),
    /// Error in the system under test.
    Sut(Seq<char>),
    /// Kernel panic.
    KernelPanic(Seq<char>),
    /// Kernel is tainted.
    KernelTainted(Seq<char>),
    /// Kernel is not responding anymore.
    KernelTimeout(Seq<char>),
    /// Error inside a framework.
    Framework(Seq<char>),
    /// Error during exporter operations.
    Exporter(Seq<char>),
    /// Error during LTX execution.
    Ltx(Seq<char>),
    /// Error during scheduler operations.
    Scheduler(Seq<char>),
    /// Error during session operations.
    Session(Seq<char>),
}

impl View for KirkError {
    type V = ErrorView;

    open spec fn view(&self) -> ErrorView {
        match self {
            KirkError::Plugin(m) => ErrorView::Plugin(m@),
            KirkError::Communication(m) => ErrorView::Communication(m@),
            KirkError::Sut(m) => ErrorView::Sut(m@),
            KirkError::KernelPanic(m) => ErrorView::KernelPanic(m@),
            KirkError::KernelTainted(m) => ErrorView::KernelTainted(m@),
            KirkError::KernelTimeout(m) => ErrorView::KernelTimeout(m@),
            KirkError::Framework(m) => ErrorView::Framework(m@),
            KirkError::Exporter(m) => ErrorView::Exporter(m@),
            KirkError::Ltx(m) => ErrorView::Ltx(m@),
            KirkError::Scheduler(m) => ErrorView::Scheduler(m@),
            KirkError::Session(m) => ErrorView::Session(m@),
        }
    }
}

/// Text an error is shown as: what failed, a colon and the message.
pub open spec fn error_text(e: ErrorView) -> Seq<char> {
    match e {
        ErrorView::Plugin(m) => "plugin error: "@ + m,
        ErrorView::Communication(m) => "communication error: "@ + m,
        ErrorView::Sut(m) => "SUT error: "@ + m,
        ErrorView::KernelPanic(m) => "kernel panic: "@ + m,
        ErrorView::KernelTainted(m) => "kernel tainted: "@ + m,
        ErrorView::KernelTimeout(m) => "kernel timeout: "@ + m,
        ErrorView::Framework(m) => "framework error: "@ + m,
        ErrorView::Exporter(m) => "exporter error: "@ + m,
        ErrorView::Ltx(m) => "LTX error: "@ + m,
        ErrorView::Scheduler(m) => "scheduler error: "@ + m,
        ErrorView::Session(m) => "session error: "@ + m,
    }
}

impl KirkError {
    /// Text this error is shown as.
    pub fn to_string(&self) -> (r: String)
        ensures
            r@ == error_text(self@),
    {
        match self {
            KirkError::Plugin(m) => text::cat2("plugin error: ", m.as_str()),
            KirkError::Communication(m) => text::cat2("communication error: ", m.as_str()),
            KirkError::Sut(m) => text::cat2("SUT error: ", m.as_str()),
            KirkError::KernelPanic(m) => text::cat2("kernel panic: ", m.as_str()),
            KirkError::KernelTainted(m) => text::cat2("kernel tainted: ", m.as_str()),
            KirkError::KernelTimeout(m) => text::cat2("kernel timeout: ", m.as_str()),
            KirkError::Framework(m) => text::cat2("framework error: ", m.as_str()),
            KirkError::Exporter(m) => text::cat2("exporter error: ", m.as_str()),
            KirkError::Ltx(m) => text::cat2("LTX error: ", m.as_str()),
            KirkError::Scheduler(m) => text::cat2("scheduler error: ", m.as_str()),
            KirkError::Session(m) => text::cat2("session error: ", m.as_str()),
        }
    }
}

/// An error is shown with its message at the end, and errors of different
/// kinds are shown differently.
pub proof fn messages_are_shown(m: Seq<char>)
    ensures
        error_text(ErrorView::Plugin(m)) == "plugin error: "@ + m,
        error_text(ErrorView::Communication(m)) == "communication error: "@ + m,
        error_text(ErrorView::Sut(m)) == "SUT error: "@ + m,
        error_text(ErrorView::KernelPanic(m)) == "kernel panic: "@ + m,
        error_text(ErrorView::KernelTainted(m)) == "kernel tainted: "@ + m,
        error_text(ErrorView::KernelTimeout(m)) == "kernel timeout: "@ + m,
        error_text(ErrorView::Framework(m)) == "framework error: "@ + m,
        error_text(ErrorView::Exporter(m)) == "exporter error: "@ + m,
        error_text(ErrorView::Ltx(m)) == "LTX error: "@ + m,
        error_text(ErrorView::Scheduler(m)) == "scheduler error: "@ + m,
        error_text(ErrorView::Session(m)) == "session error: "@ + m,
{
}

} // verus!
