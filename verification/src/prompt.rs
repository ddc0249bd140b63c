//! Reading the answers given at the prompts between steps.
use crate::text::{
    lemma_trim_idempotent, same_text, trim, trim_end_newlines, trimmed, without_final_newlines,
};
use vstd::prelude::*;

verus! {

/// What the user answered before a step.
#[derive(Debug, Clone, Copy, PartialEq, Eq, Structural)]
pub enum PreAnswer {
    Run,
    Shell,
    Skip,
    Quit,
    Unclear,
}

/// What the user answered after a failed step.
#[derive(Debug, Clone, Copy, PartialEq, Eq, Structural)]
pub enum FailAnswer {
    Retry,
    Shell,
    Continue,
    Quit,
    Unclear,
}

/// The meaning of an answer before a step: enter, `r` or `c` run it, `s`
/// opens a shell, `k` skips, `q` quits; surrounding whitespace is ignored.
pub open spec fn pre_answer_of(answer: Seq<char>) -> PreAnswer {
    let t = trim(answer);
    if t == ""@ || t == "r"@ || t == "c"@ {
        PreAnswer::Run
    } else if t == "s"@ {
        PreAnswer::Shell
    } else if t == "k"@ {
        PreAnswer::Skip
    } else if t == "q"@ {
        PreAnswer::Quit
    } else {
        PreAnswer::Unclear
    }
}

/// The meaning of an answer after a failed step: `r` or enter retry, `s`
/// opens a shell, `c` continues, `q` quits; surrounding whitespace is ignored.
pub open spec fn fail_answer_of(answer: Seq<char>) -> FailAnswer {
    let t = trim(answer);
    if t == "r"@ || t == ""@ {
        FailAnswer::Retry
    } else if t == "s"@ {
        FailAnswer::Shell
    } else if t == "c"@ {
        FailAnswer::Continue
    } else if t == "q"@ {
        FailAnswer::Quit
    } else {
        FailAnswer::Unclear
    }
}

/// Reads an answer given before a step.
pub fn pre_answer(answer: &str) -> (r: PreAnswer)
    ensures
        r == pre_answer_of(answer@),
{
    let t = trimmed(answer);
    let t = t.as_str();
    if same_text(t, "") || same_text(t, "r") || same_text(t, "c") {
        PreAnswer::Run
    } else if same_text(t, "s") {
        PreAnswer::Shell
    } else if same_text(t, "k") {
        PreAnswer::Skip
    } else if same_text(t, "q") {
        PreAnswer::Quit
    } else {
        PreAnswer::Unclear
    }
}

/// Reads an answer given after a failed step.
pub fn fail_answer(answer: &str) -> (r: FailAnswer)
    ensures
        r == fail_answer_of(answer@),
{
    let t = trimmed(answer);
    let t = t.as_str();
    if same_text(t, "r") || same_text(t, "") {
        FailAnswer::Retry
    } else if same_text(t, "s") {
        FailAnswer::Shell
    } else if same_text(t, "c") {
        FailAnswer::Continue
    } else if same_text(t, "q") {
        FailAnswer::Quit
    } else {
        FailAnswer::Unclear
    }
}

/// What the user answered to the offer to edit a command before a retry.
#[derive(Debug, Clone, Copy, PartialEq, Eq, Structural)]
pub enum EditAnswer {
    /// Edit the command first.
    Edit,
    /// Retry the command as it is.
    AsIs,
    /// Open a shell, then ask again.
    Shell,
    /// Quit the walk.
    Quit,
}

/// The meaning of an answer to the offer to edit: `e` edits, `s` opens a
/// shell, `q` quits, anything else retries as is; surrounding whitespace is
/// ignored.
pub open spec fn edit_answer_of(answer: Seq<char>) -> EditAnswer {
    let t = trim(answer);
    if t == "e"@ {
        EditAnswer::Edit
    } else if t == "s"@ {
        EditAnswer::Shell
    } else if t == "q"@ {
        EditAnswer::Quit
    } else {
        EditAnswer::AsIs
    }
}

/// Reads an answer to the offer to edit a command before a retry.
pub fn edit_answer(answer: &str) -> (r: EditAnswer)
    ensures
        r == edit_answer_of(answer@),
{
    let t = trimmed(answer);
    let t = t.as_str();
    if same_text(t, "e") {
        EditAnswer::Edit
    } else if same_text(t, "s") {
        EditAnswer::Shell
    } else if same_text(t, "q") {
        EditAnswer::Quit
    } else {
        EditAnswer::AsIs
    }
}

/// The command after editing: the edited text without its final line feeds,
/// or nothing when that is the command unchanged.
pub fn edited_command(command: &str, edited: &str) -> (r: Option<String>)
    ensures
        if trim_end_newlines(edited@) == command@ {
            r is None
        } else {
            r matches Some(c) && c@ == trim_end_newlines(edited@)
        },
{
    let e = without_final_newlines(edited);
    if same_text(e.as_str(), command) {
        None
    } else {
        Some(e)
    }
}

/// The shell to open between steps: `$SHELL`, else `/bin/bash`.
pub fn interactive_shell(shell_var: Option<String>) -> (r: String)
    ensures
        r@ == match shell_var {
            Some(s) => s@,
            None => "/bin/bash"@,
        },
{
    match shell_var {
        Some(s) => s,
        None => "/bin/bash".to_owned(),
    }
}

/// The editor to edit a command with: `$EDITOR`, else `nano`.
pub fn command_editor(editor_var: Option<String>) -> (r: String)
    ensures
        r@ == match editor_var {
            Some(s) => s@,
            None => "nano"@,
        },
{
    match editor_var {
        Some(s) => s,
        None => "nano".to_owned(),
    }
}

/// An answer is read by its text without surrounding whitespace alone: the
/// line feed that ends a typed line, or spaces around the key, change nothing.
pub proof fn law_answers_ignore_surrounding_whitespace(answer: Seq<char>)
    ensures
        pre_answer_of(answer) == pre_answer_of(trim(answer)),
        fail_answer_of(answer) == fail_answer_of(trim(answer)),
        edit_answer_of(answer) == edit_answer_of(trim(answer)),
{
    lemma_trim_idempotent(answer);
}

/// The keys: before a step, enter, `r` or `c` run it, `s` opens a shell, `k`
/// skips, `q` quits; after a failure, `r` or enter retry, `s` opens a shell,
/// `c` continues, `q` quits; at the offer to edit, `e` edits, `s` opens a
/// shell, `q` quits and enter retries as is.
pub proof fn law_answer_keys()
    ensures
        pre_answer_of(""@) == PreAnswer::Run,
        pre_answer_of("r"@) == PreAnswer::Run,
        pre_answer_of("c"@) == PreAnswer::Run,
        pre_answer_of("s"@) == PreAnswer::Shell,
        pre_answer_of("k"@) == PreAnswer::Skip,
        pre_answer_of("q"@) == PreAnswer::Quit,
        fail_answer_of(""@) == FailAnswer::Retry,
        fail_answer_of("r"@) == FailAnswer::Retry,
        fail_answer_of("s"@) == FailAnswer::Shell,
        fail_answer_of("c"@) == FailAnswer::Continue,
        fail_answer_of("q"@) == FailAnswer::Quit,
        edit_answer_of("e"@) == EditAnswer::Edit,
        edit_answer_of("s"@) == EditAnswer::Shell,
        edit_answer_of("q"@) == EditAnswer::Quit,
        edit_answer_of(""@) == EditAnswer::AsIs,
{
    reveal_strlit("");
    reveal_strlit("r");
    reveal_strlit("c");
    reveal_strlit("s");
    reveal_strlit("k");
    reveal_strlit("q");
    reveal_strlit("e");
    lemma_trim_idempotent(""@);
    assert(trim(""@) =~= ""@);
    assert(trim("r"@) =~= "r"@);
    assert(trim("c"@) =~= "c"@);
    assert(trim("s"@) =~= "s"@);
    assert(trim("k"@) =~= "k"@);
    assert(trim("q"@) =~= "q"@);
    assert(trim("e"@) =~= "e"@);
}

} // verus!
