//! Structured records of what an operation changed.
use vstd::prelude::*;

use crate::error;
use crate::strings;

verus! {

/// The lines around a change.
#[derive(Debug, Clone, PartialEq, Eq)]
pub struct ChangeContext {
    pub before: Vec<String>,
    pub after: Vec<String>,
}

/// The lines that a [`ChangeContext`] holds.
#[verifier::ext_equal]
pub struct ContextView {
    pub before: Seq<Seq<char>>,
    pub after: Seq<Seq<char>>,
}

impl View for ChangeContext {
    type V = ContextView;

    open spec fn view(&self) -> ContextView {
        ContextView {
            before: strings::strings_view(self.before@),
            after: strings::strings_view(self.after@),
        }
    }
}

/// One change: the line it starts on (1-indexed), the text before, and the
/// text after (`None` for a deletion).
#[derive(Debug, Clone, PartialEq, Eq)]
pub struct Change {
    pub line: usize,
    pub before: String,
    pub after: Option<String>,
    pub context: Option<ChangeContext>,
}

/// What a [`Change`] records.
#[verifier::ext_equal]
pub struct ChangeView {
    pub line: int,
    pub before: Seq<char>,
    pub after: Option<Seq<char>>,
    pub context: Option<ContextView>,
}

impl View for Change {
    type V = ChangeView;

    open spec fn view(&self) -> ChangeView {
        ChangeView {
            line: self.line as int,
            before: self.before@,
            after: error::opt_view(self.after),
            context: match self.context {
                Some(c) => Some(c@),
                None => None,
            },
        }
    }
}

/// The views of a list of changes.
pub open spec fn changes_view(v: Seq<Change>) -> Seq<ChangeView> {
    v.map_values(|c: Change| c@)
}

/// The changes of one file.
#[derive(Debug, Clone, PartialEq, Eq)]
pub struct FileChanges {
    pub path: String,
    pub changes: Vec<Change>,
}

/// The changes that one operation made, file by file.
#[derive(Debug, Clone, PartialEq, Eq)]
pub struct OpResult {
    pub operation_index: usize,
    pub files: Vec<FileChanges>,
}

/// What an [`OpResult`] says: the operation, and the changes by path.
#[verifier::ext_equal]
pub struct ResultView {
    pub operation_index: int,
    pub files: Seq<(Seq<char>, Seq<ChangeView>)>,
}

impl View for OpResult {
    type V = ResultView;

    open spec fn view(&self) -> ResultView {
        ResultView {
            operation_index: self.operation_index as int,
            files: Seq::new(
                self.files@.len(),
                |i: int| (self.files@[i].path@, changes_view(self.files@[i].changes@)),
            ),
        }
    }
}

/// The view of a list of results.
pub open spec fn results_view(v: Seq<OpResult>) -> Seq<ResultView> {
    Seq::new(v.len(), |i: int| v[i]@)
}

/// Totals over a run.
#[derive(Debug, Clone, Copy, PartialEq, Eq, Structural)]
pub struct Summary {
    pub files_matched: usize,
    pub files_modified: usize,
    pub total_replacements: usize,
}

impl Default for Summary {
    fn default() -> (s: Summary)
        ensures
            s.files_matched == 0,
            s.files_modified == 0,
            s.total_replacements == 0,
    {
        Summary { files_matched: 0, files_modified: 0, total_replacements: 0 }
    }
}

} // verus!
