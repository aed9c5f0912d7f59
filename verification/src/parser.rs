//! Reading edits out of the oracle's answer.
//!
//! The oracle is asked to answer with edit blocks of this shape, closed by a fence:
//!
//! ```text
//! filepath: src/hello.rs
//! start_line: 1
//! end_line: 2
//! content: println!("hello!")
//! ```
//!
//! Every block of an answer becomes one `UpdateFragment`.

use crate::error::ParseError;
use crate::pattern::{captures, regex_captures};
use crate::repository::{Fragment, FragmentView, Transformation, TransformationView};
use crate::text::{lines_of, parse_decimal, parsed_decimal, split_lines};
use vstd::prelude::*;

verus! {

/// The pattern of one edit block: the four keys, each on a line of its own, and the
/// closing fence. Its groups are the path, the first line and the line after the
/// last, each as it is written up to the end of its line, and the content up to the
/// fence. Whether the two line fields are numbers is not the pattern's to decide.
pub const EDIT_PATTERN: &'static str =
    "filepath: (.*?),?\n.*start_line: (.*?),?\n.*end_line: (.*?),?\n.*content: ([\\s\\S]*?)```";

/// The edit that one match of the pattern stands for. The groups must be the whole
/// match and the four fields, and both line numbers must be decimal numerals that fit
/// a `usize`.
pub open spec fn edit_of(groups: Seq<Option<Seq<char>>>) -> Result<TransformationView, ParseError> {
    if groups.len() == 5 && groups[1] is Some && groups[2] is Some && groups[3] is Some
        && groups[4] is Some && parsed_decimal(groups[2].unwrap()) is Some && parsed_decimal(
        groups[3].unwrap(),
    ) is Some {
        Ok(
            TransformationView::UpdateFragment {
                fragment: FragmentView {
                    filepath: groups[1].unwrap(),
                    line_range: (
                        parsed_decimal(groups[2].unwrap()).unwrap(),
                        parsed_decimal(groups[3].unwrap()).unwrap(),
                    ),
                },
                updated_lines: lines_of(groups[4].unwrap()),
            },
        )
    } else {
        Err(ParseError::Malformed)
    }
}

/// The edits that the matches of the pattern stand for, in order: `NoMatch` where
/// there is no match, `Malformed` where one of the matches stands for no edit.
pub open spec fn edits_of(found: Seq<Seq<Option<Seq<char>>>>) -> Result<
    Seq<TransformationView>,
    ParseError,
> {
    if found.len() == 0 {
        Err(ParseError::NoMatch)
    } else if exists|i: int| 0 <= i < found.len() && #[trigger] edit_of(found[i]) is Err {
        Err(ParseError::Malformed)
    } else {
        Ok(Seq::new(found.len(), |i: int| edit_of(found[i]).unwrap()))
    }
}

/// The edits of an answer, given what the search for edit blocks found in it. A
/// search that could not be made found nothing.
pub open spec fn parse_outcome(found: Option<Seq<Seq<Option<Seq<char>>>>>) -> Result<
    Seq<TransformationView>,
    ParseError,
> {
    match found {
        Some(found) => edits_of(found),
        None => Err(ParseError::NoMatch),
    }
}

/// A parse result over views.
pub open spec fn edits_result(r: Result<Vec<Transformation>, ParseError>) -> Result<
    Seq<TransformationView>,
    ParseError,
> {
    match r {
        Ok(edits) => Ok(Seq::new(edits@.len(), |i: int| edits@[i]@)),
        Err(e) => Err(e),
    }
}

/// The edit of one match, as [`edit_of`] says.
fn edit_from_groups(groups: &Vec<Option<String>>) -> (r: Result<Transformation, ParseError>)
    ensures
        match r {
            Ok(t) => edit_of(groups.deep_view()) == Ok::<TransformationView, ParseError>(t@),
            Err(e) => edit_of(groups.deep_view()) == Err::<TransformationView, ParseError>(e),
        },
{
    if groups.len() != 5 {
        return Err(ParseError::Malformed);
    }
    let ghost view = groups.deep_view();
    assert(view[1] == groups@[1].deep_view());
    assert(view[2] == groups@[2].deep_view());
    assert(view[3] == groups@[3].deep_view());
    assert(view[4] == groups@[4].deep_view());
    match (&groups[1], &groups[2], &groups[3], &groups[4]) {
        (Some(path), Some(first), Some(last), Some(content)) => {
            match (parse_decimal(first.as_str()), parse_decimal(last.as_str())) {
                (Some(start), Some(end)) => Ok(
                    Transformation::UpdateFragment {
                        fragment: Fragment { filepath: path.clone(), line_range: (start, end) },
                        updated_lines: split_lines(content.as_str()),
                    },
                ),
                _ => Err(ParseError::Malformed),
            }
        },
        _ => Err(ParseError::Malformed),
    }
}

impl Transformation {
    /// The edits that the matches `found` stand for, in order of appearance.
    pub fn from_captures(found: &Vec<Vec<Option<String>>>) -> (r: Result<
        Vec<Transformation>,
        ParseError,
    >)
        ensures
            edits_result(r) == edits_of(found.deep_view()),
    {
        if found.len() == 0 {
            return Err(ParseError::NoMatch);
        }
        let ghost view = found.deep_view();
        let mut edits: Vec<Transformation> = Vec::new();
        let mut i: usize = 0;
        while i < found.len()
            invariant
                i <= found.len(),
                view == found.deep_view(),
                edits@.len() == i,
                forall|k: int|
                    0 <= k < i ==> #[trigger] edit_of(view[k]) == Ok::<
                        TransformationView,
                        ParseError,
                    >(edits@[k]@),
            decreases found.len() - i,
        {
            assert(view[i as int] == found@[i as int].deep_view());
            match edit_from_groups(&found[i]) {
                Ok(t) => {
                    edits.push(t);
                },
                Err(e) => {
                    assert(edit_of(view[i as int]) is Err);
                    return Err(ParseError::Malformed);
                },
            }
            i += 1;
        }
        assert(edits_of(view) is Ok);
        assert(edits_result(Ok(edits)).unwrap() =~= edits_of(view).unwrap());
        Ok(edits)
    }

    /// Reads every edit block of `text`, in order of appearance. Text between the
    /// blocks is skipped. The search is `regex`'s, with [`EDIT_PATTERN`].
    pub fn parse_from(text: &str) -> (r: Result<Vec<Transformation>, ParseError>)
        ensures
            edits_result(r) == parse_outcome(regex_captures(EDIT_PATTERN@, text@)),
    {
        match captures(EDIT_PATTERN, text) {
            Some(found) => Transformation::from_captures(&found),
            None => Err(ParseError::NoMatch),
        }
    }

    /// Reads the first edit block of `text`.
    pub fn try_from(text: &str) -> (r: Result<Transformation, ParseError>)
        ensures
            match parse_outcome(regex_captures(EDIT_PATTERN@, text@)) {
                Ok(edits) => r is Ok && r.unwrap()@ == edits[0],
                Err(e) => r == Err::<Transformation, ParseError>(e),
            },
    {
        match Transformation::parse_from(text) {
            Ok(mut edits) => {
                let ghost views = edits_result(Ok(edits)).unwrap();
                assert(views.len() == edits@.len());
                assert(views[0] == edits@[0]@);
                Ok(edits.remove(0))
            },
            Err(e) => Err(e),
        }
    }
}

} // verus!
