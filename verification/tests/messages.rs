use rakune::error::{ApplyError, ErrorKind, OracleError, ParseError};
use rakune::prompter::{detect_language, Prompter, CODE_TEMPLATE};

#[test]
fn parse_error_messages() {
    assert_eq!(ParseError::NoMatch.message(), "failed to parse transformation");
    assert_eq!(
        ParseError::Malformed.message(),
        "an edit block holds a line number that is not an integer"
    );
}

#[test]
fn apply_error_messages() {
    assert_eq!(
        ApplyError::OutOfBounds { requested: (3, 12), actual_len: 10 }.message(),
        "One of the line ranges (3, 12) was not in bound of the file [0..10]."
    );
    assert_eq!(
        ApplyError::OutOfBounds { requested: (0, 0), actual_len: 0 }.message(),
        "One of the line ranges (0, 0) was not in bound of the file [0..0]."
    );
    assert_eq!(ApplyError::NotFound.message(), "the file does not exist");
    assert_eq!(ApplyError::AlreadyExists.message(), "the file already exists");
    assert_eq!(ApplyError::Unsupported.message(), "the transformation is not supported here");
}

#[test]
fn oracle_error_messages() {
    assert_eq!(OracleError::Transport.message(), "the oracle could not be reached");
    assert_eq!(OracleError::BadEnvelope.message(), "the oracle's response was not understood");
}

#[test]
fn error_kind_messages_name_the_stage() {
    assert_eq!(
        ErrorKind::Unconverged.message(),
        "the build still fails and the retry budget is spent"
    );
    assert_eq!(ErrorKind::Fatal.message(), "the loop cannot go on");
    assert_eq!(
        ErrorKind::Parse(ParseError::NoMatch).message(),
        "parse: failed to parse transformation"
    );
    assert_eq!(
        ErrorKind::Apply(ApplyError::OutOfBounds { requested: (1, 4), actual_len: 2 }).message(),
        "apply: One of the line ranges (1, 4) was not in bound of the file [0..2]."
    );
    assert_eq!(
        ErrorKind::Oracle(OracleError::Transport).message(),
        "oracle: the oracle could not be reached"
    );
}

#[test]
fn language_is_rust() {
    assert_eq!(detect_language(), "Rust");
}

#[test]
fn template_code_wraps_the_request() {
    let prompt = Prompter::template_code("Add a test.");
    assert_eq!(prompt, format!("You are a Rust programmer. Add a test.{}", CODE_TEMPLATE));
    assert!(prompt.starts_with("You are a Rust programmer. Add a test.\n\nPlease use the following template"));
    assert!(prompt.contains("    start_line: 1\n    end_line: 2\n    content: println!(\"hello!\")\n```"));
    assert!(prompt.ends_with("    content: return x + 5;\n```\n"));
}

#[test]
fn template_code_of_nothing() {
    assert_eq!(Prompter::template_code(""), format!("You are a Rust programmer. {}", CODE_TEMPLATE));
}

#[test]
fn template_debug_wraps_the_error() {
    assert_eq!(
        Prompter::template_debug("mismatched types"),
        "fix this build error:\n\nmismatched types"
    );
    assert_eq!(Prompter::template_debug(""), "fix this build error:\n\n");
}

#[test]
fn template_commit_wraps_the_diff() {
    assert_eq!(
        Prompter::template_commit("+ a\n- b"),
        "summarize the following diff as a commit message in less than 20 words:\n\n+ a\n- b"
    );
}

#[test]
fn the_examples_of_the_template_parse() {
    let examples = CODE_TEMPLATE.split_once("## Here are a couple of examples:").unwrap().1;
    let parsed = rakune::repository::Transformation::parse_from(examples);
    assert_eq!(parsed.map(|edits| edits.len()), Ok(2));
}

#[test]
fn the_description_of_the_template_is_no_edit() {
    let parsed = rakune::repository::Transformation::parse_from(CODE_TEMPLATE);
    assert_eq!(parsed, Err(rakune::error::ParseError::Malformed));
}
