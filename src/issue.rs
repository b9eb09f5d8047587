use vstd::prelude::*;

verus! {

/// How severe a reported issue is.
#[derive(Clone, Copy, PartialEq, Eq, Structural, Debug)]
pub enum IssueLevel {
    Info,
    Warning,
    Error,
}

/// The pipeline stage that reported an issue.
#[derive(Clone, Copy, PartialEq, Eq, Structural, Debug)]
pub enum IssuePosition {
    LexicalAnalysis,
    Parsing,
    CodeGeneration,
}

/// One diagnostic: its level, the stage that raised it, a short code and a detail.
#[derive(Clone, Debug)]
pub struct IssueBase<T> {
    pub level: IssueLevel,
    pub position: IssuePosition,
    pub code: String,
    pub detail: T,
}

/// An ordered list of diagnostics, the error value of every fallible stage.
#[derive(Clone, Debug)]
pub struct GeneralIssue<T> {
    pub issues: Vec<IssueBase<T>>,
}

/// A place in the source text: the byte offset where a match starts and its length.
#[derive(Clone, Copy, PartialEq, Eq, Structural, Debug)]
pub struct FileMatch {
    pub start: usize,
    pub length: usize,
}

/// A lexical problem, located in the source text.
#[derive(Clone, Copy, Debug)]
pub struct LexicalAnalysisIssue {
    pub location: FileMatch,
}

/// A fatal failure: exactly one issue, of level `Error`, raised at `position`.
pub open spec fn is_fatal_issue(e: GeneralIssue<String>, position: IssuePosition) -> bool {
    &&& e.issues@.len() == 1
    &&& e.issues@[0].level == IssueLevel::Error
    &&& e.issues@[0].position == position
}

/// Builds the single-issue error that aborts a stage.
pub fn fatal_issue(position: IssuePosition, code: &str, detail: &str) -> (r: GeneralIssue<String>)
    ensures
        is_fatal_issue(r, position),
        r.issues@[0].code@ == code@,
        r.issues@[0].detail@ == detail@,
{
    let issue = IssueBase {
        level: IssueLevel::Error,
        position,
        code: code.to_owned(),
        detail: detail.to_owned(),
    };
    GeneralIssue { issues: vec![issue] }
}

} // verus!
