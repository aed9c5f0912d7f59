use rakune::coder::Coder;
use rakune::convergence::{Action, ConvergenceLoop, Event, Phase};
use rakune::diagnostics::{Diagnostic, RustBuilder};
use rakune::error::{ApplyError, ErrorKind, OracleError, ParseError};
use rakune::llm::LLM;
use rakune::repository::{Comment, Fragment, GitRepository};
use std::cell::RefCell;

struct Script {
    answers: RefCell<Vec<Result<String, OracleError>>>,
    repeat: Option<String>,
}

impl LLM for Script {
    fn prompt(&self, prompt: &str) -> Result<String, OracleError> {
        if prompt.starts_with("summarize") {
            return Ok("  Make main work. \n".to_string());
        }
        let mut answers = self.answers.borrow_mut();
        if answers.is_empty() {
            match &self.repeat {
                Some(answer) => Ok(answer.clone()),
                None => Err(OracleError::Transport),
            }
        } else {
            answers.remove(0)
        }
    }
}

struct Run {
    result: Result<String, ErrorKind>,
    generations: usize,
    builds: usize,
    summaries: usize,
    steps: usize,
}

fn edit(content: &str) -> String {
    format!("filepath: src/test.rs\nstart_line: 1\nend_line: 2\ncontent: {}\n```", content)
}

fn build(repository: &GitRepository) -> (Option<i32>, String) {
    let lines = repository.file_lines("src/test.rs").unwrap();
    match lines.iter().position(|l| l.contains("broken")) {
        None => (Some(0), String::new()),
        Some(i) => (
            Some(101),
            format!("error: cannot find value `broken`\n --> src/test.rs:{}:5\n", i + 1),
        ),
    }
}

fn coder(answers: Vec<Result<String, OracleError>>, repeat: Option<String>) -> Coder<Script> {
    let mut repository = GitRepository::new();
    repository.insert_file("src/test.rs", "fn main() {\n    broken\n}\n");
    Coder { transformation_count: 0, repository, llm: Script { answers: RefCell::new(answers), repeat } }
}

fn seed() -> Comment {
    Comment {
        message: "make main work".to_string(),
        fragments: vec![Fragment { filepath: "src/test.rs".to_string(), line_range: (0, 3) }],
    }
}

fn drive(coder: &mut Coder<Script>, comments: Vec<Comment>, budget: usize) -> Run {
    let mut state = ConvergenceLoop::new(comments, budget);
    let mut run = Run { result: Err(ErrorKind::Fatal), generations: 0, builds: 0, summaries: 0, steps: 0 };
    let mut action = state.step(Event::Started);
    loop {
        run.steps += 1;
        assert!(run.steps < 1000, "the loop does not end");
        action = match action {
            Action::Generate(comment) => {
                run.generations += 1;
                let outcome = coder.generate_transformations(&comment).map(|_| ());
                state.step(Event::Generated(outcome))
            }
            Action::Build => {
                run.builds += 1;
                let (code, stderr) = build(&coder.repository);
                state.step(Event::Built(RustBuilder::build(code, &stderr)))
            }
            Action::Summarize => {
                run.summaries += 1;
                state.step(Event::Summarized(coder.generate_commit("a diff")))
            }
            Action::Done(summary) => {
                run.result = Ok(summary);
                break;
            }
            Action::Fail(e) => {
                run.result = Err(e);
                break;
            }
        };
    }
    assert_eq!(state.phase(), Phase::Finished);
    run
}

fn diagnostic(message: &str, line: usize) -> Diagnostic {
    Diagnostic::new(message.to_string(), "src/test.rs".to_string(), line, 1).unwrap()
}

fn generating() -> ConvergenceLoop {
    let mut state = ConvergenceLoop::new(vec![seed()], 2);
    assert_eq!(state.step(Event::Started), Action::Generate(seed()));
    state
}

fn building() -> ConvergenceLoop {
    let mut state = generating();
    assert_eq!(state.step(Event::Generated(Ok(()))), Action::Build);
    state
}

#[test]
fn loop_converges_within_two_cycles() {
    let mut c = coder(vec![Ok(edit("    broken again")), Ok(edit("    println!(\"ok\");"))], None);
    let run = drive(&mut c, vec![seed()], 3);
    assert_eq!(run.result, Ok("Make main work.".to_string()));
    assert_eq!(run.generations, 2);
    assert_eq!(run.builds, 2);
    assert_eq!(run.summaries, 1);
    assert_eq!(
        c.repository.read_file("src/test.rs"),
        Ok("fn main() {\n    println!(\"ok\");\n}".to_string())
    );
}

#[test]
fn loop_converges_at_once() {
    let mut c = coder(vec![Ok(edit("    fine();"))], None);
    let run = drive(&mut c, vec![seed()], 1);
    assert_eq!(run.result, Ok("Make main work.".to_string()));
    assert_eq!((run.generations, run.builds, run.summaries), (1, 1, 1));
}

#[test]
fn loop_fails_unconverged_after_exactly_the_budget() {
    for budget in [1usize, 2, 3, 7] {
        let mut c = coder(vec![], Some(edit("    broken still")));
        let run = drive(&mut c, vec![seed()], budget);
        assert_eq!(run.result, Err(ErrorKind::Unconverged));
        assert_eq!(run.generations, budget);
        assert_eq!(run.builds, budget);
        assert_eq!(run.summaries, 0);
    }
}

#[test]
fn loop_with_no_budget_generates_nothing() {
    let mut c = coder(vec![], Some(edit("    fine();")));
    let run = drive(&mut c, vec![seed()], 0);
    assert_eq!(run.result, Err(ErrorKind::Unconverged));
    assert_eq!((run.generations, run.builds, run.summaries), (0, 0, 0));
}

#[test]
fn loop_with_nothing_pending_goes_to_the_summary() {
    let mut c = coder(vec![], None);
    let run = drive(&mut c, Vec::new(), 3);
    assert_eq!(run.result, Ok("Make main work.".to_string()));
    assert_eq!((run.generations, run.builds, run.summaries), (0, 0, 1));
    assert_eq!(
        c.repository.read_file("src/test.rs"),
        Ok("fn main() {\n    broken\n}".to_string())
    );
}

#[test]
fn nothing_pending_first_action_is_summarize() {
    let mut state = ConvergenceLoop::new(Vec::new(), 5);
    assert_eq!(state.phase(), Phase::Ready);
    assert_eq!(state.step(Event::Started), Action::Summarize);
    assert_eq!(state.phase(), Phase::Summarizing);
    assert_eq!(state.step(Event::Summarized(Ok("done".to_string()))), Action::Done("done".to_string()));
    assert_eq!(state.phase(), Phase::Finished);
}

#[test]
fn loop_retries_an_answer_that_does_not_parse() {
    let mut c = coder(vec![Ok("no edit here".to_string()), Ok(edit("    fine();"))], None);
    let run = drive(&mut c, vec![seed()], 2);
    assert_eq!(run.result, Ok("Make main work.".to_string()));
    assert_eq!((run.generations, run.builds), (2, 1));
}

#[test]
fn answers_that_never_parse_spend_the_budget() {
    let mut c = coder(vec![], Some("no edit here".to_string()));
    let run = drive(&mut c, vec![seed()], 4);
    assert_eq!(run.result, Err(ErrorKind::Unconverged));
    assert_eq!((run.generations, run.builds), (4, 0));
}

#[test]
fn loop_stops_when_the_oracle_fails() {
    let mut c = coder(vec![Err(OracleError::Transport)], None);
    let run = drive(&mut c, vec![seed()], 3);
    assert_eq!(run.result, Err(ErrorKind::Oracle(OracleError::Transport)));
    assert_eq!((run.generations, run.builds), (1, 0));
}

#[test]
fn loop_stops_when_an_edit_does_not_apply() {
    let answer = "filepath: src/test.rs\nstart_line: 7\nend_line: 9\ncontent: x\n```".to_string();
    let mut c = coder(vec![Ok(answer)], None);
    let run = drive(&mut c, vec![seed()], 3);
    assert_eq!(
        run.result,
        Err(ErrorKind::Apply(ApplyError::OutOfBounds { requested: (7, 9), actual_len: 3 }))
    );
    assert_eq!((run.generations, run.builds), (1, 0));
}

#[test]
fn each_pending_comment_has_its_own_budget() {
    let mut c = coder(
        vec![
            Ok(edit("    broken once")),
            Ok(edit("    fine();")),
            Ok(edit("    broken twice")),
            Ok(edit("    fine_again();")),
        ],
        None,
    );
    let run = drive(&mut c, vec![seed(), seed()], 2);
    assert_eq!(run.result, Ok("Make main work.".to_string()));
    assert_eq!((run.generations, run.builds, run.summaries), (4, 4, 1));
}

#[test]
fn pending_comments_are_taken_last_first() {
    let first = Comment { message: "first".to_string(), fragments: Vec::new() };
    let second = Comment { message: "second".to_string(), fragments: Vec::new() };
    let mut state = ConvergenceLoop::new(vec![first.clone(), second.clone()], 1);
    assert_eq!(state.pending(), 2);
    assert_eq!(state.step(Event::Started), Action::Generate(second));
    assert_eq!(state.pending(), 1);
    assert_eq!(state.cycles(), 1);
    assert_eq!(state.step(Event::Generated(Ok(()))), Action::Build);
    assert_eq!(state.step(Event::Built(Ok(()))), Action::Generate(first));
    assert_eq!(state.pending(), 0);
    assert_eq!(state.cycles(), 1);
    assert_eq!(state.step(Event::Generated(Ok(()))), Action::Build);
    assert_eq!(state.step(Event::Built(Ok(()))), Action::Summarize);
}

#[test]
fn failed_build_derives_a_comment_from_the_first_diagnostic() {
    let mut state = building();
    let diagnostics = vec![diagnostic("first", 3), diagnostic("second", 9)];
    assert_eq!(
        state.step(Event::Built(Err(diagnostics))),
        Action::Generate(Comment {
            message: "fix this build error:\n\nfirst".to_string(),
            fragments: vec![Fragment { filepath: "src/test.rs".to_string(), line_range: (2, 3) }],
        })
    );
    assert_eq!(state.phase(), Phase::Generating);
    assert_eq!(state.cycles(), 2);
    assert_eq!(state.step(Event::Generated(Ok(()))), Action::Build);
    assert_eq!(
        state.step(Event::Built(Err(vec![diagnostic("third", 1)]))),
        Action::Fail(ErrorKind::Unconverged)
    );
    assert_eq!(state.phase(), Phase::Finished);
}

#[test]
fn failed_build_without_diagnostics_is_fatal() {
    let mut state = building();
    assert_eq!(state.step(Event::Built(Err(Vec::new()))), Action::Fail(ErrorKind::Fatal));
    assert_eq!(state.phase(), Phase::Finished);
}

#[test]
fn unparsed_answer_generates_for_the_same_comment_again() {
    let mut state = generating();
    assert_eq!(
        state.step(Event::Generated(Err(ErrorKind::Parse(ParseError::NoMatch)))),
        Action::Generate(seed())
    );
    assert_eq!(state.cycles(), 2);
    assert_eq!(
        state.step(Event::Generated(Err(ErrorKind::Parse(ParseError::Malformed)))),
        Action::Fail(ErrorKind::Unconverged)
    );
}

#[test]
fn other_generation_failures_end_the_loop() {
    for e in [
        ErrorKind::Apply(ApplyError::NotFound),
        ErrorKind::Oracle(OracleError::BadEnvelope),
        ErrorKind::Fatal,
        ErrorKind::Unconverged,
    ] {
        let mut state = generating();
        assert_eq!(state.step(Event::Generated(Err(e))), Action::Fail(e));
        assert_eq!(state.phase(), Phase::Finished);
    }
}

#[test]
fn failed_summary_ends_the_loop() {
    let mut state = ConvergenceLoop::new(Vec::new(), 1);
    assert_eq!(state.step(Event::Started), Action::Summarize);
    assert_eq!(
        state.step(Event::Summarized(Err(OracleError::Transport))),
        Action::Fail(ErrorKind::Oracle(OracleError::Transport))
    );
}

#[test]
fn events_out_of_turn_are_fatal() {
    let mut ready = ConvergenceLoop::new(vec![seed()], 2);
    assert_eq!(ready.step(Event::Built(Ok(()))), Action::Fail(ErrorKind::Fatal));
    let mut asked = generating();
    assert_eq!(asked.step(Event::Started), Action::Fail(ErrorKind::Fatal));
    let mut built = building();
    assert_eq!(built.step(Event::Generated(Ok(()))), Action::Fail(ErrorKind::Fatal));
    let mut early = generating();
    assert_eq!(early.step(Event::Summarized(Ok("s".to_string()))), Action::Fail(ErrorKind::Fatal));
}

#[test]
fn a_finished_loop_stays_finished() {
    let mut state = ConvergenceLoop::new(Vec::new(), 1);
    state.step(Event::Started);
    state.step(Event::Summarized(Ok("s".to_string())));
    assert_eq!(state.phase(), Phase::Finished);
    assert_eq!(state.step(Event::Started), Action::Fail(ErrorKind::Fatal));
    assert_eq!(state.step(Event::Built(Ok(()))), Action::Fail(ErrorKind::Fatal));
    assert_eq!(state.phase(), Phase::Finished);
}

#[test]
fn the_loop_ends_within_its_bound() {
    for budget in [0usize, 1, 2, 5] {
        for pending in [0usize, 1, 3] {
            let mut c = coder(vec![], Some(edit("    broken still")));
            let comments: Vec<Comment> = (0..pending).map(|_| seed()).collect();
            let run = drive(&mut c, comments, budget);
            assert!(run.steps <= pending * (2 * budget + 1) + 3);
        }
    }
}
