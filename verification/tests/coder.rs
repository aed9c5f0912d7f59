use rakune::coder::{append_contexts, Coder, CONTEXT_HEADING};
use rakune::error::{ApplyError, ErrorKind, OracleError, ParseError};
use rakune::llm::LLM;
use rakune::prompter::{Prompter, CODE_TEMPLATE};
use rakune::repository::{Comment, Fragment, GitRepository, Transformation};
use std::cell::RefCell;

struct Script {
    answers: RefCell<Vec<Result<String, OracleError>>>,
    prompts: RefCell<Vec<String>>,
}

impl Script {
    fn of(answers: Vec<Result<&str, OracleError>>) -> Script {
        Script {
            answers: RefCell::new(answers.into_iter().map(|a| a.map(|s| s.to_string())).collect()),
            prompts: RefCell::new(Vec::new()),
        }
    }
}

impl LLM for Script {
    fn prompt(&self, prompt: &str) -> Result<String, OracleError> {
        self.prompts.borrow_mut().push(prompt.to_string());
        let mut answers = self.answers.borrow_mut();
        if answers.is_empty() {
            Err(OracleError::Transport)
        } else {
            answers.remove(0)
        }
    }
}

fn lines(items: &[&str]) -> Vec<String> {
    items.iter().map(|s| s.to_string()).collect()
}

fn tree() -> GitRepository {
    let mut repository = GitRepository::new();
    repository.insert_file("src/a.rs", "a\nb\nc\nd\n");
    repository.insert_file("src/b.rs", "x\ny\n");
    repository
}

fn coder(answers: Vec<Result<&str, OracleError>>) -> Coder<Script> {
    Coder { transformation_count: 2, repository: tree(), llm: Script::of(answers) }
}

fn comment(message: &str, fragments: Vec<Fragment>) -> Comment {
    Comment { message: message.to_string(), fragments }
}

fn fragment(path: &str, start: usize, end: usize) -> Fragment {
    Fragment { filepath: path.to_string(), line_range: (start, end) }
}

fn update(path: &str, start: usize, end: usize, new: &[&str]) -> Transformation {
    Transformation::UpdateFragment { fragment: fragment(path, start, end), updated_lines: lines(new) }
}

const ONE_EDIT: &str = "filepath: src/a.rs\nstart_line: 1\nend_line: 3\ncontent: X\n```";

const TWO_EDITS: &str = "filepath: src/a.rs\nstart_line: 0\nend_line: 1\ncontent: first\n```\nfilepath: src/b.rs\nstart_line: 2\nend_line: 2\ncontent: z\n```";

const SECOND_FAILS: &str = "filepath: src/a.rs\nstart_line: 0\nend_line: 1\ncontent: first\n```\nfilepath: src/b.rs\nstart_line: 3\nend_line: 3\ncontent: z\n```";

#[test]
fn prompt_hands_the_answer_back() {
    let c = coder(vec![Ok("an answer"), Err(OracleError::BadEnvelope)]);
    assert_eq!(c.prompt("a question"), Ok("an answer".to_string()));
    assert_eq!(c.prompt("another"), Err(OracleError::BadEnvelope));
    assert_eq!(*c.llm.prompts.borrow(), vec!["a question".to_string(), "another".to_string()]);
}

#[test]
fn append_contexts_adds_a_line_each() {
    let mut prompt = "head".to_string();
    append_contexts(&mut prompt, &lines(&["one", "two"]));
    assert_eq!(prompt, "head\none\ntwo");
    append_contexts(&mut prompt, &Vec::new());
    assert_eq!(prompt, "head\none\ntwo");
}

#[test]
fn instruction_prompt_without_fragments() {
    let c = coder(vec![]);
    assert_eq!(
        c.instruction_prompt(&comment("Add a test.", vec![])),
        Ok(Prompter::template_code("Add a test."))
    );
}

#[test]
fn instruction_prompt_shows_each_fragment() {
    let c = coder(vec![]);
    let r = c.instruction_prompt(&comment(
        "Fix it.",
        vec![fragment("src/a.rs", 1, 3), fragment("src/b.rs", 0, 1)],
    ));
    let expected = format!(
        "You are a Rust programmer. Fix it.{}{}\n{}\n{}",
        CODE_TEMPLATE,
        CONTEXT_HEADING,
        "The existing lines of code are:\n\nsrc/a.rs\n>>>>\n0 b\n1 c\n<<<<",
        "The existing lines of code are:\n\nsrc/b.rs\n>>>>\n0 x\n<<<<",
    );
    assert_eq!(r, Ok(expected));
    assert_eq!(CONTEXT_HEADING, "\n### Here is the current context:\n");
}

#[test]
fn instruction_prompt_fails_with_the_first_unreadable_fragment() {
    let c = coder(vec![]);
    assert_eq!(
        c.instruction_prompt(&comment(
            "Fix it.",
            vec![fragment("src/a.rs", 1, 3), fragment("src/b.rs", 0, 5), fragment("none", 0, 0)],
        )),
        Err(ApplyError::OutOfBounds { requested: (0, 5), actual_len: 2 })
    );
    assert_eq!(
        c.instruction_prompt(&comment("Fix it.", vec![fragment("none", 0, 0)])),
        Err(ApplyError::NotFound)
    );
}

#[test]
fn apply_edits_applies_in_order() {
    let mut c = coder(vec![]);
    let edits = vec![update("src/a.rs", 0, 4, &["one"]), update("src/a.rs", 1, 1, &["two"])];
    assert_eq!(c.apply_edits(Ok(edits.clone())), Ok(edits));
    assert_eq!(c.repository.file_lines("src/a.rs"), Ok(lines(&["one", "two"])));
}

#[test]
fn apply_edits_passes_a_parse_error_on() {
    let mut c = coder(vec![]);
    assert_eq!(
        c.apply_edits(Err(ParseError::Malformed)),
        Err(ErrorKind::Parse(ParseError::Malformed))
    );
    assert_eq!(c.apply_edits(Err(ParseError::NoMatch)), Err(ErrorKind::Parse(ParseError::NoMatch)));
    assert_eq!(c.repository.file_lines("src/a.rs"), Ok(lines(&["a", "b", "c", "d"])));
}

#[test]
fn apply_edits_keeps_what_was_applied_before_a_failure() {
    let mut c = coder(vec![]);
    let edits = vec![
        update("src/a.rs", 0, 1, &["first"]),
        update("src/b.rs", 3, 3, &["z"]),
        update("src/a.rs", 1, 2, &["never"]),
    ];
    assert_eq!(
        c.apply_edits(Ok(edits)),
        Err(ErrorKind::Apply(ApplyError::OutOfBounds { requested: (3, 3), actual_len: 2 }))
    );
    assert_eq!(c.repository.file_lines("src/a.rs"), Ok(lines(&["first", "b", "c", "d"])));
    assert_eq!(c.repository.file_lines("src/b.rs"), Ok(lines(&["x", "y"])));
}

#[test]
fn apply_answer_reads_and_applies() {
    let mut c = coder(vec![]);
    assert_eq!(
        c.apply_answer(TWO_EDITS),
        Ok(vec![update("src/a.rs", 0, 1, &["first"]), update("src/b.rs", 2, 2, &["z"])])
    );
    assert_eq!(c.repository.file_lines("src/a.rs"), Ok(lines(&["first", "b", "c", "d"])));
    assert_eq!(c.repository.file_lines("src/b.rs"), Ok(lines(&["x", "y", "z"])));
}

#[test]
fn apply_answer_without_edits() {
    let mut c = coder(vec![]);
    assert_eq!(c.apply_answer("no idea"), Err(ErrorKind::Parse(ParseError::NoMatch)));
    assert_eq!(c.repository.file_lines("src/a.rs"), Ok(lines(&["a", "b", "c", "d"])));
}

#[test]
fn generate_transformations_asks_once_and_applies() {
    let mut c = coder(vec![Ok(ONE_EDIT), Ok("unused")]);
    let request = comment("Fix it.", vec![fragment("src/a.rs", 1, 3)]);
    let prompt = c.instruction_prompt(&request).unwrap();
    assert_eq!(c.generate_transformations(&request), Ok(vec![update("src/a.rs", 1, 3, &["X"])]));
    assert_eq!(c.repository.file_lines("src/a.rs"), Ok(lines(&["a", "X", "d"])));
    assert_eq!(*c.llm.prompts.borrow(), vec![prompt]);
    assert_eq!(c.llm.answers.borrow().len(), 1);
}

#[test]
fn generate_transformations_with_unreadable_fragment_asks_nothing() {
    let mut c = coder(vec![Ok(ONE_EDIT)]);
    let request = comment("Fix it.", vec![fragment("src/a.rs", 1, 9)]);
    assert_eq!(
        c.generate_transformations(&request),
        Err(ErrorKind::Apply(ApplyError::OutOfBounds { requested: (1, 9), actual_len: 4 }))
    );
    assert!(c.llm.prompts.borrow().is_empty());
    assert_eq!(c.repository.file_lines("src/a.rs"), Ok(lines(&["a", "b", "c", "d"])));
}

#[test]
fn generate_transformations_when_the_oracle_fails() {
    let mut c = coder(vec![Err(OracleError::Transport)]);
    assert_eq!(
        c.generate_transformations(&comment("Fix it.", vec![])),
        Err(ErrorKind::Oracle(OracleError::Transport))
    );
    let mut d = coder(vec![Err(OracleError::BadEnvelope)]);
    assert_eq!(
        d.generate_transformations(&comment("Fix it.", vec![])),
        Err(ErrorKind::Oracle(OracleError::BadEnvelope))
    );
    assert_eq!(d.repository.file_lines("src/a.rs"), Ok(lines(&["a", "b", "c", "d"])));
}

#[test]
fn generate_transformations_when_the_answer_holds_no_edit() {
    let mut c = coder(vec![Ok("I would rather not.")]);
    assert_eq!(
        c.generate_transformations(&comment("Fix it.", vec![])),
        Err(ErrorKind::Parse(ParseError::NoMatch))
    );
    assert_eq!(c.repository.file_lines("src/a.rs"), Ok(lines(&["a", "b", "c", "d"])));
}

#[test]
fn generate_transformations_when_an_edit_does_not_apply() {
    let mut c = coder(vec![Ok(SECOND_FAILS)]);
    assert_eq!(
        c.generate_transformations(&comment("Fix it.", vec![])),
        Err(ErrorKind::Apply(ApplyError::OutOfBounds { requested: (3, 3), actual_len: 2 }))
    );
    assert_eq!(c.repository.file_lines("src/a.rs"), Ok(lines(&["first", "b", "c", "d"])));
}

#[test]
fn summary_of_trims() {
    assert_eq!(Coder::<Script>::summary_of("\n  Fix the build. \n"), "Fix the build.");
    assert_eq!(Coder::<Script>::summary_of(""), "");
}

#[test]
fn generate_commit_asks_for_a_summary() {
    let c = coder(vec![Ok("  Replace b and c by X.\n")]);
    assert_eq!(c.generate_commit("- b\n- c\n+ X"), Ok("Replace b and c by X.".to_string()));
    assert_eq!(
        *c.llm.prompts.borrow(),
        vec!["summarize the following diff as a commit message in less than 20 words:\n\n- b\n- c\n+ X"
            .to_string()]
    );
    assert_eq!(c.generate_commit("x"), Err(OracleError::Transport));
}

#[test]
fn generate_transformations_puts_the_file_of_the_comment_in_work() {
    let mut c = coder(vec![Ok(ONE_EDIT), Ok("nothing")]);
    assert_eq!(c.repository.in_work(), None);
    let request = comment("Fix it.", vec![fragment("src/b.rs", 0, 1), fragment("src/a.rs", 0, 1)]);
    assert!(c.generate_transformations(&request).is_ok());
    assert_eq!(c.repository.in_work(), Some("src/b.rs".to_string()));
    assert_eq!(
        c.generate_transformations(&comment("Again.", vec![])),
        Err(ErrorKind::Parse(ParseError::NoMatch))
    );
    assert_eq!(c.repository.in_work(), None);
    assert_eq!(c.transformation_count, 2);
}

#[test]
fn apply_edits_inserts_into_the_file_in_work() {
    let mut c = coder(vec![]);
    c.repository.work_on(Some("src/b.rs".to_string()));
    let edits = vec![Transformation::InsertFragment { line_no: 1, content: lines(&["X", "Y"]) }];
    assert_eq!(c.apply_edits(Ok(edits.clone())), Ok(edits));
    assert_eq!(c.repository.file_lines("src/b.rs"), Ok(lines(&["x", "X", "Y", "y"])));
    let beyond = vec![Transformation::InsertFragment { line_no: 9, content: lines(&["Z"]) }];
    assert_eq!(
        c.apply_edits(Ok(beyond)),
        Err(ErrorKind::Apply(ApplyError::OutOfBounds { requested: (9, 9), actual_len: 4 }))
    );
}
