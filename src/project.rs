use vstd::prelude::*;
use crate::syntax::{prefix_rest, starts_with};

verus! {

/// What a document of a project is, by the folder it lies in.
#[derive(Clone, Copy, Debug, PartialEq, Eq, Structural)]
pub enum DocumentKind {
    Exam,
    Question,
}

/// A path to compile that lies neither in `exams/` nor in `questions/`.
#[derive(Clone, Debug)]
pub struct InvalidExamPathError(pub String);

/// The kind of the document at `path`, relative to the project folder.
pub fn document_kind(path: &String) -> (r: Result<DocumentKind, InvalidExamPathError>)
    ensures
        r matches Ok(DocumentKind::Exam) <==> starts_with(path@, "exams/"@),
        r matches Ok(DocumentKind::Question) <==> !starts_with(path@, "exams/"@) && starts_with(path@, "questions/"@),
        r matches Err(e) ==> e.0@ == path@,
{
    if prefix_rest(path.as_str(), "exams/").is_some() {
        Ok(DocumentKind::Exam)
    } else if prefix_rest(path.as_str(), "questions/").is_some() {
        Ok(DocumentKind::Question)
    } else {
        Err(InvalidExamPathError(path.clone()))
    }
}

} // verus!
