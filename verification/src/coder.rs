//! The coder: it asks the oracle for edits and applies them to its working tree.

use crate::error::{ApplyError, ErrorKind, OracleError, ParseError};
use crate::llm::LLM;
use crate::parser::{edits_result, parse_outcome, EDIT_PATTERN};
use crate::pattern::regex_captures;
use crate::prompter::Prompter;
use crate::repository::{
    excerpt, fragment_text, text_result, transformed_all, Comment, CommentView, FragmentView,
    GitRepository, Transformation, TransformationView,
};
use crate::text::{texts, trim, trimmed};
use vstd::prelude::*;
use vstd::string::StringExecFns;

verus! {

/// What stands between the request and the excerpts in an instruction prompt.
pub const CONTEXT_HEADING: &'static str = "\n### Here is the current context:\n";

/// `prompt` with each of `contexts` added on a line of its own.
pub open spec fn with_contexts(prompt: Seq<char>, contexts: Seq<Seq<char>>) -> Seq<char>
    decreases contexts.len(),
{
    if contexts.len() == 0 {
        prompt
    } else {
        with_contexts(prompt, contexts.drop_last()) + seq!['\n'] + contexts.last()
    }
}

/// The excerpts of the fragments `fragments[from..]`, in order, or the error of the
/// first fragment that cannot be read.
pub open spec fn excerpts(
    tree: Map<Seq<char>, Seq<Seq<char>>>,
    fragments: Seq<FragmentView>,
    from: int,
) -> Result<Seq<Seq<char>>, ApplyError>
    decreases fragments.len() - from,
{
    if from < 0 || from >= fragments.len() {
        Ok(Seq::empty())
    } else {
        match fragment_text(tree, fragments[from]) {
            Err(e) => Err(e),
            Ok(text) => match excerpts(tree, fragments, from + 1) {
                Err(e) => Err(e),
                Ok(rest) => Ok(seq![excerpt(fragments[from].filepath, text)] + rest),
            },
        }
    }
}

/// The instruction prompt for a comment: the request in its template and, where the
/// comment is anchored, a heading and the excerpt of each of its fragments.
pub open spec fn instruction(tree: Map<Seq<char>, Seq<Seq<char>>>, comment: CommentView) -> Result<
    Seq<char>,
    ApplyError,
> {
    if comment.fragments.len() == 0 {
        Ok(Prompter::code_text(comment.message))
    } else {
        match excerpts(tree, comment.fragments, 0) {
            Ok(shown) => Ok(
                with_contexts(Prompter::code_text(comment.message) + CONTEXT_HEADING@, shown),
            ),
            Err(e) => Err(e),
        }
    }
}

/// The file that a comment puts in work: the file of its first fragment, none where
/// the comment is not anchored.
pub open spec fn work_file(comment: CommentView) -> Option<Seq<char>> {
    if comment.fragments.len() > 0 {
        Some(comment.fragments[0].filepath)
    } else {
        None
    }
}

/// What becomes of a tree when the edits of an answer are applied to it, given the
/// file in work and how the answer was parsed: the edits, where all of them were
/// applied, or the error that ended the attempt, and beside it the tree as it is
/// left. Edits that were applied before one failed stay applied.
pub open spec fn edits_outcome(
    tree: Map<Seq<char>, Seq<Seq<char>>>,
    in_work: Option<Seq<char>>,
    parsed: Result<Seq<TransformationView>, ParseError>,
) -> (Result<Seq<TransformationView>, ErrorKind>, Map<Seq<char>, Seq<Seq<char>>>) {
    match parsed {
        Err(e) => (Err(ErrorKind::Parse(e)), tree),
        Ok(edits) => {
            let run = transformed_all(tree, in_work, edits, 0);
            match run.0 {
                Ok(()) => (Ok(edits), run.1),
                Err(e) => (Err(ErrorKind::Apply(e)), run.1),
            }
        },
    }
}

/// What a generation makes of the oracle's answer to its instruction prompt: the
/// oracle's error is passed on and leaves the tree as it was; a reply is parsed for
/// edits, and the edits are applied.
pub open spec fn generation_outcome(
    tree: Map<Seq<char>, Seq<Seq<char>>>,
    in_work: Option<Seq<char>>,
    answer: Result<String, OracleError>,
) -> (Result<Seq<TransformationView>, ErrorKind>, Map<Seq<char>, Seq<Seq<char>>>) {
    match answer {
        Err(e) => (Err(ErrorKind::Oracle(e)), tree),
        Ok(reply) => edits_outcome(
            tree,
            in_work,
            parse_outcome(regex_captures(EDIT_PATTERN@, reply@)),
        ),
    }
}

/// The result of a generation over views.
pub open spec fn generated(r: Result<Vec<Transformation>, ErrorKind>) -> Result<
    Seq<TransformationView>,
    ErrorKind,
> {
    match r {
        Ok(edits) => Ok(Seq::new(edits@.len(), |i: int| edits@[i]@)),
        Err(e) => Err(e),
    }
}

/// Whether `answer` is what the oracle `llm` may give back when it is sent `prompt`.
/// The oracle alone decides that; two calls with one prompt may differ.
pub open spec fn answered<M: LLM>(llm: &M, prompt: &str, answer: Result<String, OracleError>) -> bool {
    call_ensures(M::prompt, (llm, prompt), answer)
}

/// What becomes of the oracle's answer to a request for a summary: the answer
/// without the blanks around it, or the oracle's error.
pub open spec fn summary_outcome(answer: Result<String, OracleError>) -> Result<
    Seq<char>,
    OracleError,
> {
    match answer {
        Ok(text) => Ok(trimmed(text@)),
        Err(e) => Err(e),
    }
}

/// The result of a request for a summary over views.
pub open spec fn summary_view(r: Result<String, OracleError>) -> Result<Seq<char>, OracleError> {
    match r {
        Ok(summary) => Ok(summary@),
        Err(e) => Err(e),
    }
}

/// Adds each of `contexts` to `prompt`, on a line of its own.
pub fn append_contexts(prompt: &mut String, contexts: &Vec<String>)
    ensures
        final(prompt)@ == with_contexts(old(prompt)@, texts(contexts@)),
{
    let mut i: usize = 0;
    assert(texts(contexts@).take(0) =~= Seq::empty());
    while i < contexts.len()
        invariant
            i <= contexts.len(),
            prompt@ == with_contexts(old(prompt)@, texts(contexts@).take(i as int)),
        decreases contexts.len() - i,
    {
        proof {
            let next = texts(contexts@).take(i + 1);
            assert(next.drop_last() =~= texts(contexts@).take(i as int));
            assert(next.last() == contexts@[i as int]@);
        }
        prompt.push('\n');
        prompt.append(contexts[i].as_str());
        i += 1;
    }
    assert(texts(contexts@).take(contexts.len() as int) =~= texts(contexts@));
}

/// Performs the edits that the oracle proposes.
pub struct Coder<M: LLM> {
    /// A number that the caller keeps with the coder. The coder neither reads nor
    /// changes it.
    pub transformation_count: usize,
    /// The working tree that the edits are applied to.
    pub repository: GitRepository,
    /// The oracle that proposes them.
    pub llm: M,
}

impl<M: LLM> Coder<M> {
    /// Sends `prompt` to the oracle and hands back what it answers.
    pub fn prompt(&self, prompt: &str) -> (r: Result<String, OracleError>)
        ensures
            answered(&self.llm, prompt, r),
    {
        self.llm.prompt(prompt)
    }

    /// The excerpts of all fragments of `comment`, in order.
    fn contexts(&self, comment: &Comment) -> (r: Result<Vec<String>, ApplyError>)
        requires
            self.repository.wf(),
        ensures
            match r {
                Ok(shown) => excerpts(self.repository@, comment@.fragments, 0) == Ok::<
                    Seq<Seq<char>>,
                    ApplyError,
                >(texts(shown@)),
                Err(e) => excerpts(self.repository@, comment@.fragments, 0) == Err::<
                    Seq<Seq<char>>,
                    ApplyError,
                >(e),
            },
    {
        let ghost tree = self.repository@;
        let ghost fragments = comment@.fragments;
        let mut shown: Vec<String> = Vec::new();
        let mut i: usize = 0;
        assert(texts(shown@) =~= Seq::empty());
        while i < comment.fragments.len()
            invariant
                i <= comment.fragments.len(),
                self.repository.wf(),
                tree == self.repository@,
                fragments == comment@.fragments,
                match excerpts(tree, fragments, i as int) {
                    Ok(rest) => excerpts(tree, fragments, 0) == Ok::<Seq<Seq<char>>, ApplyError>(
                        texts(shown@) + rest,
                    ),
                    Err(e) => excerpts(tree, fragments, 0) == Err::<Seq<Seq<char>>, ApplyError>(e),
                },
            decreases comment.fragments.len() - i,
        {
            let fragment = &comment.fragments[i];
            assert(fragments[i as int] == fragment@);
            let ghost before = texts(shown@);
            let mut earlier = match self.repository.temporal_context(fragment) {
                Ok(contexts) => contexts,
                Err(e) => { return Err(e); },
            };
            let mut here = match self.repository.spatial_context(fragment) {
                Ok(contexts) => contexts,
                Err(e) => { return Err(e); },
            };
            assert(texts(earlier@).len() == 0);
            assert(texts(here@).len() == 1);
            shown.append(&mut earlier);
            shown.append(&mut here);
            proof {
                let text = fragment_text(tree, fragment@).unwrap();
                assert(texts(shown@) =~= before + seq![excerpt(fragment@.filepath, text)]);
                match excerpts(tree, fragments, i + 1) {
                    Ok(rest) => {
                        assert(texts(shown@) + rest =~= before + (seq![
                            excerpt(fragment@.filepath, text),
                        ] + rest));
                    },
                    Err(e) => {},
                }
            }
            i += 1;
        }
        assert(texts(shown@) + Seq::<Seq<char>>::empty() =~= texts(shown@));
        Ok(shown)
    }

    /// The instruction prompt for `comment`: its request, and what the tree shows of
    /// the fragments it is anchored to.
    pub fn instruction_prompt(&self, comment: &Comment) -> (r: Result<String, ApplyError>)
        requires
            self.repository.wf(),
        ensures
            text_result(r) == instruction(self.repository@, comment@),
    {
        let mut prompt = Prompter::template_code(comment.message.as_str());
        if comment.fragments.len() > 0 {
            let shown = match self.contexts(comment) {
                Ok(shown) => shown,
                Err(e) => { return Err(e); },
            };
            prompt.append(CONTEXT_HEADING);
            append_contexts(&mut prompt, &shown);
        }
        Ok(prompt)
    }

    /// Applies the edits of a parsed answer to the tree, in order, and hands them
    /// back. A parse error is passed on; an edit that does not apply ends the run.
    pub fn apply_edits(&mut self, parsed: Result<Vec<Transformation>, ParseError>) -> (r: Result<
        Vec<Transformation>,
        ErrorKind,
    >)
        requires
            old(self).repository.wf(),
        ensures
            final(self).repository.wf(),
            final(self).repository.revision_view() == old(self).repository.revision_view(),
            final(self).repository.in_work_view() == old(self).repository.in_work_view(),
            final(self).transformation_count == old(self).transformation_count,
            final(self).llm == old(self).llm,
            (generated(r), final(self).repository@) == edits_outcome(
                old(self).repository@,
                old(self).repository.in_work_view(),
                edits_result(parsed),
            ),
    {
        match parsed {
            Err(e) => Err(ErrorKind::Parse(e)),
            Ok(edits) => {
                assert(edits_result(parsed).unwrap() =~= crate::repository::transformation_views(
                    edits@,
                ));
                match self.repository.transform_all(&edits) {
                    Ok(()) => Ok(edits),
                    Err(e) => Err(ErrorKind::Apply(e)),
                }
            },
        }
    }

    /// Reads the edits of `answer` and applies them to the tree.
    pub fn apply_answer(&mut self, answer: &str) -> (r: Result<Vec<Transformation>, ErrorKind>)
        requires
            old(self).repository.wf(),
        ensures
            final(self).repository.wf(),
            final(self).repository.revision_view() == old(self).repository.revision_view(),
            final(self).repository.in_work_view() == old(self).repository.in_work_view(),
            final(self).transformation_count == old(self).transformation_count,
            final(self).llm == old(self).llm,
            (generated(r), final(self).repository@) == edits_outcome(
                old(self).repository@,
                old(self).repository.in_work_view(),
                parse_outcome(regex_captures(EDIT_PATTERN@, answer@)),
            ),
    {
        self.apply_edits(Transformation::parse_from(answer))
    }

    /// One generation for `comment`: puts the file of the comment in work, builds the
    /// instruction prompt, asks the oracle once, and applies the edits of its answer.
    ///
    /// Where the prompt cannot be built, the oracle is not asked and the tree stays
    /// as it was. Otherwise the oracle is sent the instruction prompt, its error is
    /// passed on, and its reply is parsed and applied as [`Coder::apply_answer`]
    /// says.
    pub fn generate_transformations(&mut self, comment: &Comment) -> (r: Result<
        Vec<Transformation>,
        ErrorKind,
    >)
        requires
            old(self).repository.wf(),
        ensures
            final(self).repository.wf(),
            final(self).repository.revision_view() == old(self).repository.revision_view(),
            final(self).repository.in_work_view() == work_file(comment@),
            final(self).transformation_count == old(self).transformation_count,
            final(self).llm == old(self).llm,
            match instruction(old(self).repository@, comment@) {
                Err(e) => r == Err::<Vec<Transformation>, ErrorKind>(ErrorKind::Apply(e))
                    && final(self).repository@ == old(self).repository@,
                Ok(text) => exists|sent: &str, answer: Result<String, OracleError>|
                    sent@ == text && #[trigger] answered(&old(self).llm, sent, answer) && (
                    generated(r),
                    final(self).repository@,
                    ) == generation_outcome(old(self).repository@, work_file(comment@), answer),
            },
    {
        let file = if comment.fragments.len() > 0 {
            Some(comment.fragments[0].filepath.clone())
        } else {
            None
        };
        self.repository.work_on(file);
        let prompt = match self.instruction_prompt(comment) {
            Ok(prompt) => prompt,
            Err(e) => { return Err(ErrorKind::Apply(e)); },
        };
        let sent = prompt.as_str();
        let answer = self.prompt(sent);
        assert(answered(&old(self).llm, sent, answer));
        match answer {
            Ok(reply) => self.apply_answer(reply.as_str()),
            Err(e) => Err(ErrorKind::Oracle(e)),
        }
    }

    /// The summary that an answer of the oracle holds: the answer without the blanks
    /// around it.
    pub fn summary_of(answer: &str) -> (summary: String)
        ensures
            summary@ == trimmed(answer@),
    {
        trim(answer)
    }

    /// Asks the oracle to summarize `diff` as a commit message. The tree is not
    /// touched. The oracle is sent the diff in the template of
    /// [`Prompter::template_commit`], once; the message is its answer, trimmed, and
    /// its error is passed on.
    pub fn generate_commit(&self, diff: &str) -> (r: Result<String, OracleError>)
        ensures
            exists|sent: &str, answer: Result<String, OracleError>|
                sent@ == Prompter::commit_text(diff@) && #[trigger] answered(
                    &self.llm,
                    sent,
                    answer,
                ) && summary_view(r) == summary_outcome(answer),
    {
        let prompt = Prompter::template_commit(diff);
        let sent = prompt.as_str();
        let answer = self.prompt(sent);
        assert(answered(&self.llm, sent, answer));
        match answer {
            Ok(text) => Ok(Coder::<M>::summary_of(text.as_str())),
            Err(e) => Err(e),
        }
    }
}

} // verus!
