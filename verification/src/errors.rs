//! The failure surface of the engine: one tagged kind for everything that can
//! go wrong while loading a template, evaluating a script, or crawling, and a
//! separate small kind for record binding.

use vstd::prelude::*;

verus! {

/// Spec-level mirror of [`CrawlerErr`], with string payloads as `Seq<char>`.
/// Contracts speak of errors through this view.
pub enum ErrView {
    SelectorError(Seq<char>),
    ScriptParseError(Seq<char>),
    RegexParseError(Seq<char>),
    DynNotYetInitialised(Seq<char>),
    DynNoValidData(Seq<char>),
    DynMultipleResults(Seq<char>),
    ParentNodeOverflow(nat, nat),
    PrevNodeOverflow(nat, nat),
    NodeNotFound(Seq<char>),
    HttpError(Seq<char>),
    DuplicateKey(Seq<char>),
    RootElementAccessNotAllowed(Seq<char>),
    CharProcessAlone,
    MultipleEntrypointParameterError(Seq<char>),
    TemplateFormat(Seq<char>),
    Bind(BindErrView),
}

/// Spec-level mirror of [`CrawlerParseError`].
pub enum BindErrView {
    MissingField(Seq<char>),
    ConversionFailed(Seq<char>),
    InvalidValueCount(Seq<char>, nat),
    EmptyVector(Seq<char>),
}

/// Everything the engine can report: template load failures, script parse
/// failures, evaluation failures, dynamic-variable failures, HTTP failures
/// surfaced by the caller, and record-binding failures.
#[derive(Debug)]
pub enum CrawlerErr {
    /// A CSS selector string was rejected by the selector engine.
    SelectorError(String),
    /// A command script could not be parsed.
    ScriptParseError(String),
    /// A regular expression string was rejected by the regex engine.
    RegexParseError(String),
    /// A dynamic `${name}` parameter names a variable that does not exist.
    DynNotYetInitialised(String),
    /// A dynamic `${name}` parameter names a variable with no values.
    DynNoValidData(String),
    /// A dynamic `${name}` parameter names a variable with several values.
    DynMultipleResults(String),
    /// `parent(n)` was asked for more ancestors than an element has:
    /// requested, then actually available.
    ParentNodeOverflow(usize, usize),
    /// `prev(n)` or `nth(n)` was asked for more siblings than an element
    /// has: requested, then actually available.
    PrevNodeOverflow(usize, usize),
    /// A named node was looked up but is not part of the template.
    NodeNotFound(String),
    /// The caller's HTTP fetch failed; the payload describes the failure.
    HttpError(String),
    /// Two nodes in one template share a name.
    DuplicateKey(String),
    /// A value-mode node has children but is not marked as a request node.
    RootElementAccessNotAllowed(String),
    /// A text-only script was used where an element or value script is
    /// required.
    CharProcessAlone,
    /// An entrypoint placeholder variable holds more than one value.
    MultipleEntrypointParameterError(String),
    /// The raw template shape is invalid.
    TemplateFormat(String),
    /// Binding the variable store into the caller's record failed.
    CrawlerParseError(CrawlerParseError),
}

/// Failures of the record binder: the conventional mapping from the runtime
/// variable store onto the fields of a caller-defined record.
#[derive(Debug)]
pub enum CrawlerParseError {
    /// A scalar field's variable is absent or empty.
    MissingField(String),
    /// A field's string value could not be decoded into the field type.
    ConversionFailed(String),
    /// A scalar field's variable holds the wrong number of values:
    /// field name, then the number of values found.
    InvalidValueCount(String, usize),
    /// A list field required at least one value but none were present.
    EmptyVector(String),
}

impl View for CrawlerErr {
    type V = ErrView;

    open spec fn view(&self) -> ErrView {
        match self {
            CrawlerErr::SelectorError(s) => ErrView::SelectorError(s@),
            CrawlerErr::ScriptParseError(s) => ErrView::ScriptParseError(s@),
            CrawlerErr::RegexParseError(s) => ErrView::RegexParseError(s@),
            CrawlerErr::DynNotYetInitialised(s) => ErrView::DynNotYetInitialised(s@),
            CrawlerErr::DynNoValidData(s) => ErrView::DynNoValidData(s@),
            CrawlerErr::DynMultipleResults(s) => ErrView::DynMultipleResults(s@),
            CrawlerErr::ParentNodeOverflow(req, act) => ErrView::ParentNodeOverflow(
                *req as nat,
                *act as nat,
            ),
            CrawlerErr::PrevNodeOverflow(req, act) => ErrView::PrevNodeOverflow(
                *req as nat,
                *act as nat,
            ),
            CrawlerErr::NodeNotFound(s) => ErrView::NodeNotFound(s@),
            CrawlerErr::HttpError(s) => ErrView::HttpError(s@),
            CrawlerErr::DuplicateKey(s) => ErrView::DuplicateKey(s@),
            CrawlerErr::RootElementAccessNotAllowed(s) => ErrView::RootElementAccessNotAllowed(
                s@,
            ),
            CrawlerErr::CharProcessAlone => ErrView::CharProcessAlone,
            CrawlerErr::MultipleEntrypointParameterError(s) => {
                ErrView::MultipleEntrypointParameterError(s@)
            },
            CrawlerErr::TemplateFormat(s) => ErrView::TemplateFormat(s@),
            CrawlerErr::CrawlerParseError(e) => ErrView::Bind(e@),
        }
    }
}

impl View for CrawlerParseError {
    type V = BindErrView;

    open spec fn view(&self) -> BindErrView {
        match self {
            CrawlerParseError::MissingField(s) => BindErrView::MissingField(s@),
            CrawlerParseError::ConversionFailed(s) => BindErrView::ConversionFailed(s@),
            CrawlerParseError::InvalidValueCount(s, n) => BindErrView::InvalidValueCount(
                s@,
                *n as nat,
            ),
            CrawlerParseError::EmptyVector(s) => BindErrView::EmptyVector(s@),
        }
    }
}

} // verus!
