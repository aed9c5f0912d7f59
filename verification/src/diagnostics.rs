//! Reading diagnostics out of what a failed build printed.
//!
//! An error block is a message behind the marker `error: `, followed by a line that
//! points at the place: ` --> path:line:column`. The message may span several lines.

use crate::pattern::{captures, regex_captures};
use crate::prompter::Prompter;
use crate::repository::{Comment, CommentView, Fragment, FragmentView, LineRange};
use crate::text::{parse_decimal, parsed_decimal};
use vstd::prelude::*;

verus! {

/// The pattern of one error block. Its groups are the message, the path, the line
/// and the column.
pub const ERROR_PATTERN: &'static str = "error: ([\\s\\S]*?)\n --> (.*?):(\\d+):(\\d+)";

/// One error of the build tool. Lines and columns count from one, as the tool
/// prints them.
#[derive(Debug, PartialEq, Eq)]
pub struct Diagnostic {
    message: String,
    filepath: String,
    line: usize,
    column: usize,
}

/// What a [`Diagnostic`] stands for.
pub struct DiagnosticView {
    pub message: Seq<char>,
    pub filepath: Seq<char>,
    pub line: usize,
    pub column: usize,
}

impl View for Diagnostic {
    type V = DiagnosticView;

    closed spec fn view(&self) -> DiagnosticView {
        DiagnosticView {
            message: self.message@,
            filepath: self.filepath@,
            line: self.line,
            column: self.column,
        }
    }
}

/// The views of a sequence of diagnostics, in order.
pub open spec fn diagnostic_views(diagnostics: Seq<Diagnostic>) -> Seq<DiagnosticView> {
    Seq::new(diagnostics.len(), |i: int| diagnostics[i]@)
}

/// The one-line span of a diagnostic: its line, counted from zero, up to the next.
pub open spec fn span_of(d: DiagnosticView) -> LineRange {
    ((d.line - 1) as usize, d.line)
}

/// The comment that asks to fix a diagnostic, anchored at its line.
pub open spec fn comment_of(d: DiagnosticView) -> CommentView {
    CommentView {
        message: Prompter::debug_text(d.message),
        fragments: seq![FragmentView { filepath: d.filepath, line_range: span_of(d) }],
    }
}

/// The diagnostic that one match of the pattern stands for, if any. The groups must
/// be the whole match and the four fields; line and column must be decimal numerals
/// that fit a `usize`, and the line must not be zero.
pub open spec fn diagnostic_of(groups: Seq<Option<Seq<char>>>) -> Option<DiagnosticView> {
    if groups.len() == 5 && groups[1] is Some && groups[2] is Some && groups[3] is Some
        && groups[4] is Some && parsed_decimal(groups[3].unwrap()) is Some && parsed_decimal(
        groups[3].unwrap(),
    ).unwrap() >= 1 && parsed_decimal(groups[4].unwrap()) is Some {
        Some(
            DiagnosticView {
                message: groups[1].unwrap(),
                filepath: groups[2].unwrap(),
                line: parsed_decimal(groups[3].unwrap()).unwrap(),
                column: parsed_decimal(groups[4].unwrap()).unwrap(),
            },
        )
    } else {
        None
    }
}

/// The diagnostics that the matches of the pattern stand for, in order. A match that
/// stands for none is passed over.
pub open spec fn diagnostics_of(found: Seq<Seq<Option<Seq<char>>>>) -> Seq<DiagnosticView>
    decreases found.len(),
{
    if found.len() == 0 {
        Seq::empty()
    } else {
        match diagnostic_of(found.last()) {
            Some(d) => diagnostics_of(found.drop_last()).push(d),
            None => diagnostics_of(found.drop_last()),
        }
    }
}

/// The diagnostics of a build's error output, given what the search for error blocks
/// found in it. A search that could not be made found nothing.
pub open spec fn extracted(found: Option<Seq<Seq<Option<Seq<char>>>>>) -> Seq<DiagnosticView> {
    match found {
        Some(found) => diagnostics_of(found),
        None => Seq::empty(),
    }
}

/// What a finished build means: success where it exited with status 0, otherwise the
/// diagnostics of its error output, of which there may be none.
pub open spec fn build_result(
    exit_code: Option<i32>,
    found: Option<Seq<Seq<Option<Seq<char>>>>>,
) -> Result<(), Seq<DiagnosticView>> {
    if exit_code == Some(0i32) {
        Ok(())
    } else {
        Err(extracted(found))
    }
}

/// A build outcome over views.
pub open spec fn outcome_view(r: Result<(), Vec<Diagnostic>>) -> Result<(), Seq<DiagnosticView>> {
    match r {
        Ok(()) => Ok(()),
        Err(diagnostics) => Err(diagnostic_views(diagnostics@)),
    }
}

impl Diagnostic {
    #[verifier::type_invariant]
    spec fn one_based(&self) -> bool {
        self.line >= 1
    }

    /// A diagnostic at `line` and `column` of `filepath`. There is none at line zero.
    pub fn new(message: String, filepath: String, line: usize, column: usize) -> (d: Option<
        Diagnostic,
    >)
        ensures
            match d {
                Some(d) => line >= 1 && d@ == (DiagnosticView {
                    message: message@,
                    filepath: filepath@,
                    line,
                    column,
                }),
                None => line == 0,
            },
    {
        if line == 0 {
            None
        } else {
            Some(Diagnostic { message, filepath, line, column })
        }
    }

    /// What the build tool said.
    pub fn message(&self) -> (message: &String)
        ensures
            message@ == self@.message,
    {
        &self.message
    }

    /// The file that the error is in.
    pub fn filepath(&self) -> (filepath: &String)
        ensures
            filepath@ == self@.filepath,
    {
        &self.filepath
    }

    /// The line of the error, counted from one.
    pub fn line(&self) -> (line: usize)
        ensures
            line == self@.line,
            line >= 1,
    {
        proof {
            use_type_invariant(self);
        }
        self.line
    }

    /// The column of the error, counted from one.
    pub fn column(&self) -> (column: usize)
        ensures
            column == self@.column,
    {
        self.column
    }

    /// The fragment that holds the line of the error and no other.
    pub fn fragment(&self) -> (fragment: Fragment)
        ensures
            fragment@.filepath == self@.filepath,
            fragment@.line_range == span_of(self@),
            fragment@.line_range.0 + 1 == fragment@.line_range.1,
            self@.line >= 1,
    {
        proof {
            use_type_invariant(self);
        }
        Fragment { filepath: self.filepath.clone(), line_range: (self.line - 1, self.line) }
    }

    /// The comment that asks to fix the error, anchored at its line.
    pub fn to_comment(&self) -> (comment: Comment)
        ensures
            comment@ == comment_of(self@),
    {
        let mut fragments: Vec<Fragment> = Vec::new();
        fragments.push(self.fragment());
        let comment = Comment {
            message: Prompter::template_debug(self.message.as_str()),
            fragments,
        };
        assert(comment@.fragments =~= comment_of(self@).fragments);
        comment
    }

    /// A copy of the diagnostic.
    pub fn duplicate(&self) -> (copy: Diagnostic)
        ensures
            copy@ == self@,
    {
        proof {
            use_type_invariant(self);
        }
        Diagnostic {
            message: self.message.clone(),
            filepath: self.filepath.clone(),
            line: self.line,
            column: self.column,
        }
    }

    /// The diagnostic of one match, as [`diagnostic_of`] says.
    fn from_groups(groups: &Vec<Option<String>>) -> (d: Option<Diagnostic>)
        ensures
            match d {
                Some(d) => diagnostic_of(groups.deep_view()) == Some(d@),
                None => diagnostic_of(groups.deep_view()) is None,
            },
    {
        if groups.len() != 5 {
            return None;
        }
        let ghost view = groups.deep_view();
        assert(view[1] == groups@[1].deep_view());
        assert(view[2] == groups@[2].deep_view());
        assert(view[3] == groups@[3].deep_view());
        assert(view[4] == groups@[4].deep_view());
        match (&groups[1], &groups[2], &groups[3], &groups[4]) {
            (Some(message), Some(path), Some(line), Some(column)) => {
                match (parse_decimal(line.as_str()), parse_decimal(column.as_str())) {
                    (Some(line), Some(column)) => Diagnostic::new(
                        message.clone(),
                        path.clone(),
                        line,
                        column,
                    ),
                    _ => None,
                }
            },
            _ => None,
        }
    }

    /// The diagnostics that the matches `found` stand for, in order of appearance.
    pub fn from_captures(found: &Vec<Vec<Option<String>>>) -> (diagnostics: Vec<Diagnostic>)
        ensures
            diagnostic_views(diagnostics@) == diagnostics_of(found.deep_view()),
    {
        let ghost view = found.deep_view();
        let mut diagnostics: Vec<Diagnostic> = Vec::new();
        let mut i: usize = 0;
        assert(view.take(0) =~= Seq::empty());
        while i < found.len()
            invariant
                i <= found.len(),
                view == found.deep_view(),
                diagnostic_views(diagnostics@) == diagnostics_of(view.take(i as int)),
            decreases found.len() - i,
        {
            let ghost before = diagnostic_views(diagnostics@);
            proof {
                assert(view[i as int] == found@[i as int].deep_view());
                assert(view.take(i + 1).drop_last() =~= view.take(i as int));
                assert(view.take(i + 1).last() == view[i as int]);
            }
            match Diagnostic::from_groups(&found[i]) {
                Some(d) => {
                    diagnostics.push(d);
                    assert(diagnostic_views(diagnostics@) =~= before.push(d@));
                },
                None => {},
            }
            i += 1;
        }
        assert(view.take(found.len() as int) =~= view);
        diagnostics
    }

    /// Reads every error block of `stderr`, in order of appearance. The search is
    /// `regex`'s, with [`ERROR_PATTERN`].
    pub fn extract(stderr: &str) -> (diagnostics: Vec<Diagnostic>)
        ensures
            diagnostic_views(diagnostics@) == extracted(regex_captures(ERROR_PATTERN@, stderr@)),
    {
        match captures(ERROR_PATTERN, stderr) {
            Some(found) => Diagnostic::from_captures(&found),
            None => {
                let diagnostics: Vec<Diagnostic> = Vec::new();
                assert(diagnostic_views(diagnostics@) =~= Seq::empty());
                diagnostics
            },
        }
    }
}

/// The command lines of a project: how it is tidied, and how it is built.
pub struct RustBuilder {
    pub build_args: Vec<String>,
    pub lint_args: Vec<String>,
}

impl RustBuilder {
    /// Whether both command lines name a program to run.
    pub fn is_runnable(&self) -> (runnable: bool)
        ensures
            runnable == (self.build_args@.len() > 0 && self.lint_args@.len() > 0),
    {
        self.build_args.len() > 0 && self.lint_args.len() > 0
    }

    /// What a finished build means, given its exit code (`None` where it was ended by
    /// a signal) and what it printed as errors. Only exit code 0 is success; a failed
    /// build may come without a single diagnostic.
    pub fn build(exit_code: Option<i32>, stderr: &str) -> (r: Result<(), Vec<Diagnostic>>)
        ensures
            outcome_view(r) == build_result(exit_code, regex_captures(ERROR_PATTERN@, stderr@)),
    {
        match exit_code {
            Some(0) => Ok(()),
            _ => Err(Diagnostic::extract(stderr)),
        }
    }
}

} // verus!
