//! The wording of the requests that are sent to the oracle.

use vstd::prelude::*;
use vstd::string::StringExecFns;

verus! {

/// What follows the request in an instruction prompt: the template that the answer
/// must use, and two worked examples of it.
pub const CODE_TEMPLATE: &'static str = "

Please use the following template to describe where to update the code:

```
UpdateFragment:
    filepath: the path to the file being changes (string)
    start_line: the first line to update, counted from zero (int)
    end_line: the line after the last line to update (int)
    content: the code the replace within the lines (string)
```

Do NOT provide any extra content beyond this template.

## Here are a couple of examples:

Update the function foo to print \"hello!\"

>>>>
0 fn foo() {
1     println!(\"chili dogs\")
2 }
<<<<

```
UpdateFragment:
    filepath: src/hello.rs
    start_line: 1
    end_line: 2
    content: println!(\"hello!\")
```

---

Remove the uneeded code in add_5().

>>>>
0 fn add_5(x: u8) -> u8 {
1   let ans = x + 5;
2   return ans;
3 }
<<<<

```
UpdateFragment:
    filepath: src/addition.rs
    start_line: 1
    end_line: 3
    content: return x + 5;
```
";

/// The language that the oracle is told to write.
pub fn detect_language() -> (language: String)
    ensures
        language@ == "Rust"@,
{
    String::from_str("Rust")
}

/// Builds the requests.
pub struct Prompter;

impl Prompter {
    /// The text of [`Prompter::template_code`] for the request `p`.
    pub open spec fn code_text(p: Seq<char>) -> Seq<char> {
        "You are a "@ + "Rust"@ + " programmer. "@ + p + CODE_TEMPLATE@
    }

    /// The text of [`Prompter::template_debug`] for the build error `p`.
    pub open spec fn debug_text(p: Seq<char>) -> Seq<char> {
        "fix this build error:\n\n"@ + p
    }

    /// The text of [`Prompter::template_commit`] for the diff `diff`.
    pub open spec fn commit_text(diff: Seq<char>) -> Seq<char> {
        "summarize the following diff as a commit message in less than 20 words:\n\n"@ + diff
    }

    /// The request `p`, with the role of the oracle before it and the template of the
    /// answer after it.
    pub fn template_code(p: &str) -> (prompt: String)
        ensures
            prompt@ == Prompter::code_text(p@),
    {
        let mut prompt = String::from_str("You are a ");
        prompt.append(detect_language().as_str());
        prompt.append(" programmer. ");
        prompt.append(p);
        prompt.append(CODE_TEMPLATE);
        prompt
    }

    /// The request to fix the build error `p`.
    pub fn template_debug(p: &str) -> (prompt: String)
        ensures
            prompt@ == Prompter::debug_text(p@),
    {
        String::from_str("fix this build error:\n\n").concat(p)
    }

    /// The request to summarize `diff` as a commit message.
    pub fn template_commit(diff: &str) -> (prompt: String)
        ensures
            prompt@ == Prompter::commit_text(diff@),
    {
        String::from_str(
            "summarize the following diff as a commit message in less than 20 words:\n\n",
        ).concat(diff)
    }
}

} // verus!
