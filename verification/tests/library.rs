use indexmap::IndexMap;
use walkflow::cli::{
    choose_workflow, first_containing, parse_usize, resolve_step, sort_texts, text_less,
    workflow_name, DiscoverError, ResolveError,
};
use walkflow::envmap::insert_each;
use walkflow::github_env::merge_github_env;
use walkflow::prompt::{
    command_editor, edit_answer, edited_command, fail_answer, interactive_shell, pre_answer,
    EditAnswer, FailAnswer, PreAnswer,
};
use walkflow::runner::{shell_invocation, RunReport, Runner, StepFiles};
use walkflow::text::{
    contains_str, decimal_string, join_paths, join_strings, split_lines, trimmed,
    without_final_newlines,
};
use walkflow::walk::{Action, Event, FailAction, JobWalk, PreAction, Stage};
use walkflow::workflow::{Job, Step, Workflow, WorkflowError};

fn map(pairs: &[(&str, &str)]) -> IndexMap<String, String> {
    let mut m = IndexMap::new();
    for (k, v) in pairs {
        m.insert(k.to_string(), v.to_string());
    }
    m
}

fn entries(m: &IndexMap<String, String>) -> Vec<(String, String)> {
    m.iter().map(|(k, v)| (k.clone(), v.clone())).collect()
}

fn step() -> Step {
    Step {
        name: None,
        run: None,
        uses: None,
        shell: None,
        env: IndexMap::new(),
        working_directory: None,
        cond: None,
    }
}

fn run_step(name: Option<&str>, run: &str) -> Step {
    Step { name: name.map(|s| s.to_string()), run: Some(run.to_string()), ..step() }
}

fn job(steps: Vec<Step>) -> Job {
    Job { name: None, env: IndexMap::new(), working_directory: None, steps }
}

fn workflow(ids: &[&str]) -> Workflow {
    let mut jobs = IndexMap::new();
    for id in ids {
        jobs.insert(id.to_string(), job(vec![run_step(Some(id), "true")]));
    }
    Workflow { name: None, env: IndexMap::new(), jobs }
}

// ---- text ----

#[test]
fn trims_unicode_whitespace() {
    assert_eq!(trimmed("  a b \t\n"), "a b");
    assert_eq!(trimmed("\u{3000}x\u{a0}"), "x");
    assert_eq!(trimmed(" \t "), "");
}

#[test]
fn splits_lines_like_str_lines() {
    assert_eq!(split_lines("a\r\nb\n\nc\r"), vec!["a", "b", "", "c\r"]);
    assert_eq!(split_lines(""), Vec::<String>::new());
    assert_eq!(split_lines("x\n"), vec!["x"]);
    assert_eq!(split_lines("\n"), vec![""]);
}

#[test]
fn finds_substrings() {
    assert!(contains_str("run: cargo test", "cargo"));
    assert!(contains_str("abc", ""));
    assert!(!contains_str("ab", "abc"));
    assert!(!contains_str("abc", "ac"));
}

#[test]
fn writes_decimal_numbers() {
    assert_eq!(decimal_string(0), "0");
    assert_eq!(decimal_string(7), "7");
    assert_eq!(decimal_string(12345), "12345");
    assert_eq!(decimal_string(u64::MAX), u64::MAX.to_string());
}

#[test]
fn joins_strings() {
    let parts = vec!["a".to_string(), "b".to_string(), "c".to_string()];
    assert_eq!(join_strings(&parts, ":"), "a:b:c");
    assert_eq!(join_strings(&vec![], ":"), "");
    assert_eq!(join_strings(&vec!["x".to_string()], ", "), "x");
}

#[test]
fn joins_paths_like_path_join() {
    assert_eq!(join_paths("/w", "sub"), "/w/sub");
    assert_eq!(join_paths("/w/", "sub"), "/w/sub");
    assert_eq!(join_paths("/w", "/abs"), "/abs");
    assert_eq!(join_paths("", "x"), "x");
    assert_eq!(join_paths("a", ""), "a/");
    for (b, r) in [("/w", "sub/dir"), ("rel", "x"), ("/", "y")] {
        assert_eq!(join_paths(b, r), std::path::Path::new(b).join(r).display().to_string());
    }
}

#[test]
fn drops_final_newlines() {
    assert_eq!(without_final_newlines("echo hi\n\n"), "echo hi");
    assert_eq!(without_final_newlines("a\r\n"), "a\r");
    assert_eq!(without_final_newlines("\n"), "");
}

// ---- ordered maps ----

#[test]
fn insert_each_layers_in_order() {
    let mut dst = map(&[("A", "1"), ("B", "2")]);
    let src = map(&[("B", "x"), ("C", "y")]);
    insert_each(&mut dst, &src);
    assert_eq!(
        entries(&dst),
        vec![("A".into(), "1".into()), ("B".into(), "x".into()), ("C".into(), "y".into())]
    );
}

// ---- $GITHUB_ENV ----

#[test]
fn github_env_plain_assignment() {
    let mut env = map(&[("KEEP", "1")]);
    merge_github_env("FOO=bar\n", &mut env);
    assert_eq!(env.get("FOO").unwrap(), "bar");
    assert_eq!(env.get("KEEP").unwrap(), "1");
}

#[test]
fn github_env_value_may_hold_heredoc_marker() {
    let mut env = IndexMap::new();
    merge_github_env("FOO=a<<b\n", &mut env);
    assert_eq!(entries(&env), vec![("FOO".into(), "a<<b".into())]);
}

#[test]
fn github_env_merged_twice_is_merged_once() {
    let text = "A=1\nB<<E\nx\nE\nA=2\n";
    let mut once = map(&[("Z", "0")]);
    merge_github_env(text, &mut once);
    let mut twice = once.clone();
    merge_github_env(text, &mut twice);
    assert_eq!(entries(&once), entries(&twice));
}

#[test]
fn github_env_crlf_line_loses_its_carriage_return() {
    let mut env = IndexMap::new();
    merge_github_env("K=v\r\nL=w\r", &mut env);
    assert_eq!(env.get("K").unwrap(), "v");
    assert_eq!(env.get("L").unwrap(), "w\r");
}

#[test]
fn github_env_key_trimmed_value_kept() {
    let mut env = IndexMap::new();
    merge_github_env("  KEY = a=b \nnot an assignment\n=empty\n", &mut env);
    assert_eq!(entries(&env), vec![("KEY".into(), " a=b ".into())]);
}

#[test]
fn github_env_later_line_wins() {
    let mut env = map(&[("X", "old")]);
    merge_github_env("X=1\nY=2\nX=3", &mut env);
    assert_eq!(entries(&env), vec![("X".into(), "3".into()), ("Y".into(), "2".into())]);
}

#[test]
fn github_env_heredoc() {
    let mut env = IndexMap::new();
    merge_github_env("MSG<<EOF\nline one\nline two\nEOF\nAFTER=yes\n", &mut env);
    assert_eq!(env.get("MSG").unwrap(), "line one\nline two");
    assert_eq!(env.get("AFTER").unwrap(), "yes");
}

#[test]
fn github_env_heredoc_quirks() {
    // A leading empty line adds no line feed; a missing delimiter runs to the end.
    let mut env = IndexMap::new();
    merge_github_env("A<< END \n\nx\nEND\nB<<Z\ntail\nmore", &mut env);
    assert_eq!(env.get("A").unwrap(), "x");
    assert_eq!(env.get("B").unwrap(), "tail\nmore");
    // Whichever of `=` and `<<` comes first decides.
    let mut env2 = IndexMap::new();
    merge_github_env("K=x<<D\nv\nD\n", &mut env2);
    assert_eq!(entries(&env2), vec![("K".into(), "x<<D".into())]);
    let mut env4 = IndexMap::new();
    merge_github_env("M<<E=1\nbody\nE=1\n", &mut env4);
    assert_eq!(entries(&env4), vec![("M".into(), "body".into())]);
    // An empty key is ignored.
    let mut env3 = IndexMap::new();
    merge_github_env(" <<D\nv\nD\n", &mut env3);
    assert!(env3.is_empty());
}

// ---- shells ----

#[test]
fn default_shell_is_strict_bash() {
    let (p, a) = shell_invocation(None, "make");
    assert_eq!(p, "bash");
    assert_eq!(a, vec!["--noprofile", "--norc", "-eo", "pipefail", "-c", "make"]);
    let (p, a) = shell_invocation(Some(" bash "), "make");
    assert_eq!(p, "bash");
    assert_eq!(a.len(), 6);
}

#[test]
fn sh_and_other_shells() {
    let (p, a) = shell_invocation(Some("sh"), "ls");
    assert_eq!((p.as_str(), a), ("sh", vec!["-e".to_string(), "-c".into(), "ls".into()]));
    let (p, a) = shell_invocation(Some(" pwsh "), "dir");
    assert_eq!((p.as_str(), a), ("pwsh", vec!["-c".to_string(), "dir".into()]));
}

// ---- runner ----

#[test]
fn runner_interactive_only_on_terminal_without_yes() {
    assert!(Runner::new("/w".into(), IndexMap::new(), false, true).interactive);
    assert!(!Runner::new("/w".into(), IndexMap::new(), true, true).interactive);
    assert!(!Runner::new("/w".into(), IndexMap::new(), false, false).interactive);
    let r = Runner::new("/w".into(), map(&[("A", "1")]), false, true);
    assert_eq!(r.counter, 0);
    assert!(r.path_additions.is_empty());
    assert_eq!(entries(&r.env), vec![("A".into(), "1".into())]);
}

#[test]
fn run_job_layers_job_env_and_directory() {
    let mut r = Runner::new("/w".into(), map(&[("A", "wf"), ("B", "wf")]), true, false);
    let mut j = job(vec![run_step(None, "true"), step()]);
    j.env = map(&[("B", "job"), ("C", "job")]);
    j.working_directory = Some("app".into());
    let (wd, walk) = r.run_job(&j, 1);
    assert_eq!(wd, "/w/app");
    assert_eq!(
        entries(&r.env),
        vec![("A".into(), "wf".into()), ("B".into(), "job".into()), ("C".into(), "job".into())]
    );
    assert_eq!(walk.total, 2);
    assert_eq!(walk.from, 1);
    assert_eq!(walk.stage, Stage::Start);
    let (wd2, _) = r.run_job(&job(vec![]), 0);
    assert_eq!(wd2, "/w");
}

#[test]
fn step_directory() {
    let r = Runner::new("/w".into(), IndexMap::new(), true, false);
    let mut s = step();
    assert_eq!(r.step_dir(&s, "/w/job"), "/w/job");
    s.working_directory = Some("sub".into());
    assert_eq!(r.step_dir(&s, "/w/job"), "/w/sub");
}

#[test]
fn step_files_are_numbered() {
    let mut r = Runner::new("/w".into(), IndexMap::new(), true, false);
    let f = r.step_files("/tmp", 42);
    assert_eq!(r.counter, 1);
    assert_eq!(f.env, "/tmp/walkflow-42-1.env");
    assert_eq!(f.path, "/tmp/walkflow-42-1.path");
    assert_eq!(f.output, "/tmp/walkflow-42-1.output");
    let g = r.step_files("/tmp/", 42);
    assert_eq!(g.env, "/tmp/walkflow-42-2.env");
}

fn files() -> StepFiles {
    StepFiles { env: "/t/e".into(), path: "/t/p".into(), output: "/t/o".into() }
}

#[test]
fn step_env_layers_and_sets_runner_vars() {
    let mut r = Runner::new("/w".into(), map(&[("A", "acc"), ("B", "acc")]), true, false);
    r.path_additions = vec!["/opt/bin".into(), "/x".into()];
    let mut s = step();
    s.env = map(&[("B", "step"), ("CI", "no")]);
    let inherited = map(&[("A", "inh"), ("Z", "inh"), ("PATH", "/usr/bin")]);
    let e = r.step_env(&s, inherited, &files());
    assert_eq!(e.get("A").unwrap(), "acc");
    assert_eq!(e.get("B").unwrap(), "step");
    assert_eq!(e.get("Z").unwrap(), "inh");
    assert_eq!(e.get("PATH").unwrap(), "/opt/bin:/x:/usr/bin");
    assert_eq!(e.get("CI").unwrap(), "true");
    assert_eq!(e.get("GITHUB_ACTIONS").unwrap(), "true");
    assert_eq!(e.get("WALKFLOW").unwrap(), "true");
    assert_eq!(e.get("GITHUB_WORKSPACE").unwrap(), "/w");
    assert_eq!(e.get("GITHUB_ENV").unwrap(), "/t/e");
    assert_eq!(e.get("GITHUB_PATH").unwrap(), "/t/p");
    assert_eq!(e.get("GITHUB_OUTPUT").unwrap(), "/t/o");
}

#[test]
fn path_untouched_without_additions() {
    let r = Runner::new("/w".into(), IndexMap::new(), true, false);
    let e = r.step_env(&step(), map(&[("PATH", "/usr/bin")]), &files());
    assert_eq!(e.get("PATH").unwrap(), "/usr/bin");
    let mut r2 = Runner::new("/w".into(), IndexMap::new(), true, false);
    r2.path_additions = vec!["/a".into()];
    let e2 = r2.step_env(&step(), IndexMap::new(), &files());
    assert_eq!(e2.get("PATH").unwrap(), "/a:");
}

#[test]
fn shell_env_has_accumulated_state() {
    let mut r = Runner::new("/w".into(), map(&[("A", "acc")]), true, false);
    r.path_additions = vec!["/bin2".into()];
    let e = r.shell_env(map(&[("A", "inh"), ("PATH", "/p")]));
    assert_eq!(entries(&e), vec![("A".into(), "acc".into()), ("PATH".into(), "/bin2:/p".into())]);
}

#[test]
fn absorb_threads_exports() {
    let mut r = Runner::new("/w".into(), map(&[("A", "1")]), true, false);
    r.absorb(Some("A=2\nB=3\n"), Some("  /opt/tool/bin \n\n/x\n"));
    assert_eq!(entries(&r.env), vec![("A".into(), "2".into()), ("B".into(), "3".into())]);
    assert_eq!(r.path_additions, vec!["/opt/tool/bin".to_string(), "/x".to_string()]);
    r.absorb(None, None);
    assert_eq!(r.path_additions.len(), 2);
}

#[test]
fn reads_answers() {
    assert_eq!(pre_answer("\n"), PreAnswer::Run);
    assert_eq!(pre_answer("r\n"), PreAnswer::Run);
    assert_eq!(pre_answer(" c "), PreAnswer::Run);
    assert_eq!(pre_answer("s"), PreAnswer::Shell);
    assert_eq!(pre_answer("k\n"), PreAnswer::Skip);
    assert_eq!(pre_answer("q"), PreAnswer::Quit);
    assert_eq!(pre_answer("x"), PreAnswer::Unclear);
    assert_eq!(fail_answer(""), FailAnswer::Retry);
    assert_eq!(fail_answer("r"), FailAnswer::Retry);
    assert_eq!(fail_answer("s"), FailAnswer::Shell);
    assert_eq!(fail_answer("c\n"), FailAnswer::Continue);
    assert_eq!(fail_answer("q"), FailAnswer::Quit);
    assert_eq!(fail_answer("k"), FailAnswer::Unclear);
}

#[test]
fn edit_offer() {
    assert_eq!(edit_answer(" e\n"), EditAnswer::Edit);
    assert_eq!(edit_answer("\n"), EditAnswer::AsIs);
    assert_eq!(edit_answer("r"), EditAnswer::AsIs);
    assert_eq!(edit_answer("s\n"), EditAnswer::Shell);
    assert_eq!(edit_answer("q"), EditAnswer::Quit);
    assert_eq!(edited_command("make", "make\n"), None);
    assert_eq!(edited_command("make", "make test\n\n"), Some("make test".to_string()));
    assert_eq!(interactive_shell(None), "/bin/bash");
    assert_eq!(interactive_shell(Some("/bin/zsh".into())), "/bin/zsh");
    assert_eq!(command_editor(None), "nano");
    assert_eq!(command_editor(Some("vim".into())), "vim");
}

// ---- walking a job ----

fn drive(walk: &mut JobWalk, steps: &Vec<Step>, events: Vec<Event>) -> Vec<Action> {
    let mut out = Vec::new();
    for e in events {
        out.push(walk.next(steps, e));
    }
    out
}

#[test]
fn non_interactive_walk_runs_everything_and_stops_at_failure() {
    let uses = Step { uses: Some("actions/checkout@v4".into()), ..step() };
    let steps = vec![uses, run_step(None, "true"), run_step(None, "false"), run_step(None, "x")];
    let mut w = JobWalk::new(&steps, 0, false);
    let acts = drive(
        &mut w,
        &steps,
        vec![
            Event::Ack,
            Event::Ack,
            Event::Ack,
            Event::Ack,
            Event::Ack,
            Event::Exec(true),
            Event::Ack,
            Event::Ack,
            Event::Ack,
            Event::Exec(false),
            Event::Ack,
        ],
    );
    assert_eq!(
        acts,
        vec![
            Action::Announce(0),
            Action::Unrunnable(0),
            Action::Announce(1),
            Action::Preview(1),
            Action::Execute(1),
            Action::Passed(1),
            Action::Announce(2),
            Action::Preview(2),
            Action::Execute(2),
            Action::QuitAfterFailure(2),
            Action::Stop,
        ]
    );
    assert_eq!(w.report, RunReport { ran: 1, skipped: 1, failed: 1 });
}

#[test]
fn interactive_walk_pauses_from_the_chosen_step() {
    let steps = vec![run_step(None, "a"), run_step(None, "b")];
    let mut w = JobWalk::new(&steps, 1, true);
    let acts = drive(
        &mut w,
        &steps,
        vec![
            Event::Ack,
            Event::Ack,
            Event::Ack,
            Event::Exec(true),
            Event::Ack,
            Event::Ack,
            Event::Ack,
            Event::Pre(PreAction::Skip),
            Event::Ack,
            Event::Ack,
        ],
    );
    assert_eq!(
        acts,
        vec![
            Action::Announce(0),
            Action::Preview(0),
            Action::Execute(0),
            Action::Passed(0),
            Action::Announce(1),
            Action::Preview(1),
            Action::AskBefore(1),
            Action::Skipped(1),
            Action::Summary,
            Action::Stop,
        ]
    );
    assert_eq!(w.report, RunReport { ran: 1, skipped: 1, failed: 0 });
}

#[test]
fn retry_runs_the_edited_command() {
    let steps = vec![run_step(None, "make")];
    let mut w = JobWalk::new(&steps, 0, true);
    let acts = drive(
        &mut w,
        &steps,
        vec![
            Event::Ack,
            Event::Ack,
            Event::Ack,
            Event::Pre(PreAction::Run),
            Event::Exec(false),
            Event::Fail(FailAction::Retry),
        ],
    );
    assert_eq!(acts.last(), Some(&Action::OfferEdit(0)));
    assert_eq!(w.report.failed, 0);
    assert_eq!(w.command, "make");
    assert_eq!(w.next(&steps, Event::Edited(Some("make -k".into()))), Action::Execute(0));
    assert_eq!(w.command, "make -k");
    assert_eq!(w.next(&steps, Event::Exec(false)), Action::AskAfterFailure(0));
    assert_eq!(w.next(&steps, Event::Fail(FailAction::Continue)), Action::Continued(0));
    assert_eq!(w.next(&steps, Event::Ack), Action::Summary);
    assert_eq!(w.report, RunReport { ran: 0, skipped: 0, failed: 1 });
}

#[test]
fn failure_before_from_stops_without_asking() {
    let steps = vec![run_step(None, "a"), run_step(None, "b")];
    let mut r = Runner::new("/w".into(), IndexMap::new(), false, true);
    let (_, mut w) = r.run_job(&job(vec![run_step(None, "a"), run_step(None, "b")]), 1);
    drive(&mut w, &steps, vec![Event::Ack, Event::Ack, Event::Ack]);
    assert_eq!(w.next(&steps, Event::Exec(false)), Action::QuitAfterFailure(0));
    assert_eq!(w.next(&steps, Event::Ack), Action::Stop);
    assert_eq!(w.report, RunReport { ran: 0, skipped: 0, failed: 1 });
}

#[test]
fn quit_at_the_edit_offer_ends_the_walk() {
    let steps = vec![run_step(None, "make"), run_step(None, "b")];
    let mut w = JobWalk::new(&steps, 0, true);
    drive(&mut w, &steps, vec![Event::Ack, Event::Ack, Event::Ack, Event::Pre(PreAction::Run)]);
    assert_eq!(w.next(&steps, Event::Exec(false)), Action::AskAfterFailure(0));
    assert_eq!(w.next(&steps, Event::Fail(FailAction::Retry)), Action::OfferEdit(0));
    assert_eq!(w.next(&steps, Event::Quit), Action::QuitAfterFailure(0));
    assert_eq!(w.next(&steps, Event::Ack), Action::Stop);
    assert_eq!(w.report, RunReport { ran: 0, skipped: 0, failed: 1 });
}

#[test]
fn retried_step_that_passes_counts_once_as_ran() {
    let steps = vec![run_step(None, "make")];
    let mut w = JobWalk::new(&steps, 0, true);
    drive(&mut w, &steps, vec![Event::Ack, Event::Ack, Event::Ack, Event::Pre(PreAction::Run)]);
    for _ in 0..3 {
        assert_eq!(w.next(&steps, Event::Exec(false)), Action::AskAfterFailure(0));
        assert_eq!(w.next(&steps, Event::Fail(FailAction::Retry)), Action::OfferEdit(0));
        assert_eq!(w.next(&steps, Event::Edited(None)), Action::Execute(0));
    }
    assert_eq!(w.next(&steps, Event::Exec(true)), Action::Passed(0));
    assert_eq!(w.next(&steps, Event::Ack), Action::Summary);
    assert_eq!(w.report, RunReport { ran: 1, skipped: 0, failed: 0 });
}

#[test]
fn quitting_before_a_step_still_summarises() {
    let steps = vec![run_step(None, "a"), run_step(None, "b")];
    let mut w = JobWalk::new(&steps, 0, true);
    let acts = drive(
        &mut w,
        &steps,
        vec![Event::Ack, Event::Ack, Event::Ack, Event::Pre(PreAction::Quit), Event::Ack, Event::Ack],
    );
    assert_eq!(
        acts,
        vec![
            Action::Announce(0),
            Action::Preview(0),
            Action::AskBefore(0),
            Action::QuitBefore(0),
            Action::Summary,
            Action::Stop,
        ]
    );
}

#[test]
fn quitting_after_a_failure_skips_the_summary() {
    let steps = vec![run_step(None, "a")];
    let mut w = JobWalk::new(&steps, 0, true);
    drive(&mut w, &steps, vec![Event::Ack, Event::Ack, Event::Ack, Event::Pre(PreAction::Run)]);
    assert_eq!(w.next(&steps, Event::Exec(false)), Action::AskAfterFailure(0));
    assert_eq!(w.next(&steps, Event::Fail(FailAction::Quit)), Action::QuitAfterFailure(0));
    assert_eq!(w.next(&steps, Event::Ack), Action::Stop);
    assert_eq!(w.report, RunReport { ran: 0, skipped: 0, failed: 1 });
}

#[test]
fn unexpected_event_repeats_the_pending_action() {
    let steps = vec![run_step(None, "a")];
    let mut w = JobWalk::new(&steps, 0, true);
    drive(&mut w, &steps, vec![Event::Ack, Event::Ack, Event::Ack]);
    assert_eq!(w.next(&steps, Event::Exec(true)), Action::AskBefore(0));
    assert_eq!(w.stage, Stage::Asking);
}

#[test]
fn empty_job_goes_straight_to_summary() {
    let steps: Vec<Step> = vec![];
    let mut w = JobWalk::new(&steps, 0, true);
    assert_eq!(w.next(&steps, Event::Ack), Action::Summary);
    assert_eq!(w.next(&steps, Event::Ack), Action::Stop);
}

// ---- workflows ----

#[test]
fn labels_steps_like_the_actions_ui() {
    let named = Step { name: Some("build".into()), uses: Some("x".into()), ..step() };
    assert_eq!(named.label(0), "build");
    let uses = Step { uses: Some("actions/checkout@v4".into()), run: Some("x".into()), ..step() };
    assert_eq!(uses.label(0), "uses actions/checkout@v4");
    let run = Step { run: Some("  cargo test --all \r\nsecond".into()), ..step() };
    assert_eq!(run.label(0), "run: cargo test --all");
    let empty_run = Step { run: Some("".into()), ..step() };
    assert_eq!(empty_run.label(0), "run: ");
    assert_eq!(step().label(4), "step 5");
}

#[test]
fn selects_jobs() {
    let one = workflow(&["build"]);
    let (id, _) = one.select_job(None).unwrap();
    assert_eq!(id, "build");
    let two = workflow(&["build", "test"]);
    let (id, j) = two.select_job(Some("test")).unwrap();
    assert_eq!(id, "test");
    assert_eq!(j.steps[0].name.as_deref(), Some("test"));
    match two.select_job(None) {
        Err(WorkflowError::AmbiguousJob { count, available }) => {
            assert_eq!(count, 2);
            assert_eq!(available, vec!["build", "test"]);
        }
        other => panic!("unexpected {:?}", other),
    }
    match two.select_job(Some("deploy")) {
        Err(WorkflowError::JobNotFound { wanted, available }) => {
            assert_eq!(wanted, "deploy");
            assert_eq!(available, vec!["build", "test"]);
        }
        other => panic!("unexpected {:?}", other),
    }
}

#[test]
fn lists_job_names_in_order() {
    assert_eq!(workflow(&["z", "a", "m"]).job_names(), vec!["z", "a", "m"]);
}

#[test]
fn workflow_without_jobs_is_refused() {
    assert!(matches!(workflow(&[]).checked(), Err(WorkflowError::NoJobs)));
    assert!(workflow(&["a"]).checked().is_ok());
}

// ---- command line choices ----

#[test]
fn parses_numbers_like_usize_from_str() {
    for s in ["3", "+3", "007", "-3", "", "+", "3a", " 3", "++1", "18446744073709551616"] {
        assert_eq!(parse_usize(s), s.parse::<usize>().ok(), "{:?}", s);
    }
    assert_eq!(parse_usize("42"), Some(42));
}

#[test]
fn resolves_from_by_number() {
    let steps = vec![run_step(Some("a"), "x"), run_step(Some("b"), "y")];
    assert_eq!(resolve_step(&steps, "2").unwrap(), 1);
    match resolve_step(&steps, "3") {
        Err(ResolveError::OutOfRange { n, len }) => assert_eq!((n, len), (3, 2)),
        other => panic!("unexpected {:?}", other),
    }
    assert!(matches!(resolve_step(&steps, "0"), Err(ResolveError::OutOfRange { n: 0, len: 2 })));
}

#[test]
fn resolves_from_by_name_then_label() {
    let steps = vec![
        run_step(None, "cargo build"),
        run_step(Some("Run Tests"), "cargo test"),
        run_step(Some("tests"), "x"),
    ];
    assert_eq!(resolve_step(&steps, "tests").unwrap(), 2);
    assert_eq!(resolve_step(&steps, "run tests").unwrap(), 1);
    assert_eq!(resolve_step(&steps, "BUILD").unwrap(), 0);
    match resolve_step(&steps, "deploy") {
        Err(ResolveError::NoMatch { selector }) => assert_eq!(selector, "deploy"),
        other => panic!("unexpected {:?}", other),
    }
}

#[test]
fn first_containing_picks_the_first() {
    let hay = vec!["abc".to_string(), "xbz".to_string()];
    assert_eq!(first_containing(&hay, "b"), Some(0));
    assert_eq!(first_containing(&hay, "z"), Some(1));
    assert_eq!(first_containing(&hay, "q"), None);
}

#[test]
fn recognises_workflow_files() {
    assert!(workflow_name("ci.yml"));
    assert!(workflow_name("release.yaml"));
    assert!(workflow_name("a.b.yml"));
    assert!(!workflow_name(".yml"));
    assert!(!workflow_name("ci.YML"));
    assert!(!workflow_name("yml"));
    assert!(!workflow_name("ci.yml.bak"));
    assert!(!workflow_name(".."));
}

#[test]
fn orders_text_by_character() {
    assert!(text_less("a", "b"));
    assert!(text_less("a", "ab"));
    assert!(!text_less("b", "ab"));
    assert!(!text_less("x", "x"));
    assert!(text_less("Z", "a"));
    let sorted = sort_texts(vec!["b".into(), "a".into(), "c".into(), "a".into()]);
    assert_eq!(sorted, vec!["a", "a", "b", "c"]);
}

#[test]
fn chooses_the_single_workflow() {
    let r = choose_workflow("/w/.github/workflows", vec!["notes.md".into(), "ci.yml".into()]);
    assert_eq!(r.unwrap(), "/w/.github/workflows/ci.yml");
    assert!(matches!(choose_workflow("/d", vec!["x.txt".into()]), Err(DiscoverError::NoWorkflows)));
    match choose_workflow("/d", vec!["z.yml".into(), "a.yaml".into(), "m.yml".into()]) {
        Err(DiscoverError::Multiple(list)) => {
            assert_eq!(list, vec!["/d/a.yaml", "/d/m.yml", "/d/z.yml"]);
        }
        other => panic!("unexpected {:?}", other),
    }
}

#[test]
fn workflow_job_step_layering() {
    let mut r = Runner::new("/w".into(), map(&[("W", "wf"), ("J", "wf"), ("S", "wf")]), true, false);
    let mut j = job(vec![]);
    j.env = map(&[("J", "job"), ("S", "job")]);
    r.run_job(&j, 0);
    let mut s = step();
    s.env = map(&[("S", "step")]);
    let e = r.step_env(&s, map(&[("I", "inh"), ("W", "inh")]), &files());
    assert_eq!(e.get("I").unwrap(), "inh");
    assert_eq!(e.get("W").unwrap(), "wf");
    assert_eq!(e.get("J").unwrap(), "job");
    assert_eq!(e.get("S").unwrap(), "step");
}

#[test]
fn exported_variable_reaches_later_steps() {
    let mut r = Runner::new("/w".into(), IndexMap::new(), true, false);
    r.absorb(Some("TOKEN<<EOF\nabc\nEOF\n"), None);
    let e = r.step_env(&step(), IndexMap::new(), &files());
    assert_eq!(e.get("TOKEN").unwrap(), "abc");
}
