//! The step runner: the state carried from step to step, and how a step's
//! directory, environment and shell are computed.
use crate::envmap::{
    env_entries, env_get, env_insert, env_len, insert_all, insert_each, insert_entry, keys_distinct,
    last_value, lemma_insert_all_keeps_distinct, lemma_last_value_distinct,
    lemma_lookup_insert, lemma_lookup_insert_all, lookup,
};
use crate::github_env::{github_env_assignments, merge_github_env};
use crate::text::{
    decimal, decimal_string, join, join_path, join_paths, lines, same_text, split_lines, trim,
    trimmed, views,
};
use crate::walk::{walk_wf, JobWalk, Stage, WalkState};
use crate::workflow::{Job, Step};
use indexmap::IndexMap;
use vstd::prelude::*;

verus! {

/// Outcome of walking a job.
#[derive(Debug, Clone, Copy, PartialEq, Eq, Structural)]
pub struct RunReport {
    pub ran: usize,
    pub skipped: usize,
    pub failed: usize,
}

/// The state that carries over from step to step while a job is walked.
pub struct Runner {
    /// The workspace root, as text.
    pub workspace: String,
    /// Environment accumulated across steps: seeded from the workflow and job
    /// `env:` and grown by whatever steps write to `$GITHUB_ENV`.
    pub env: IndexMap<String, String>,
    /// Directories that steps have added through `$GITHUB_PATH`, oldest first.
    pub path_additions: Vec<String>,
    /// Whether to pause and ask between steps.
    pub interactive: bool,
    /// How many step commands have been started.
    pub counter: u64,
}

/// The files through which one step exports state.
pub struct StepFiles {
    pub env: String,
    pub path: String,
    pub output: String,
}

/// The pairs, as views.
pub open spec fn pair_views(v: Seq<(String, String)>) -> Seq<(Seq<char>, Seq<char>)> {
    v.map_values(|p: (String, String)| (p.0@, p.1@))
}

/// Inserts each pair, in order.
pub fn insert_pairs(env: &mut IndexMap<String, String>, pairs: Vec<(String, String)>)
    ensures
        env_entries(*final(env)) == insert_all(env_entries(*old(env)), pair_views(pairs@)),
{
    let n = pairs.len();
    let mut i: usize = 0;
    while i < n
        invariant
            n == pairs.len(),
            i <= n,
            env_entries(*env) == insert_all(
                env_entries(*old(env)),
                pair_views(pairs@).take(i as int),
            ),
        decreases n - i,
    {
        let k = pairs[i].0.clone();
        let v = pairs[i].1.clone();
        env_insert(env, k, v);
        proof {
            assert(pair_views(pairs@).take(i + 1).drop_last() =~= pair_views(pairs@).take(
                i as int,
            ));
        }
        i += 1;
    }
    assert(pair_views(pairs@).take(n as int) =~= pair_views(pairs@));
}

/// The entries with the added directories put in front of `PATH`, joined by `:`.
pub open spec fn with_path(e: Seq<(Seq<char>, Seq<char>)>, additions: Seq<Seq<char>>) -> Seq<
    (Seq<char>, Seq<char>),
> {
    if additions.len() > 0 {
        let existing = match lookup(e, "PATH"@) {
            Some(p) => p,
            None => Seq::empty(),
        };
        insert_entry(e, "PATH"@, join(additions, ":"@) + ":"@ + existing)
    } else {
        e
    }
}

/// The variables every step sees from the runner itself.
pub open spec fn runner_vars(workspace: Seq<char>, env: Seq<char>, path: Seq<char>, output: Seq<char>) -> Seq<
    (Seq<char>, Seq<char>),
> {
    seq![
        ("CI"@, "true"@),
        ("GITHUB_ACTIONS"@, "true"@),
        ("WALKFLOW"@, "true"@),
        ("GITHUB_WORKSPACE"@, workspace),
        ("GITHUB_ENV"@, env),
        ("GITHUB_PATH"@, path),
        ("GITHUB_OUTPUT"@, output),
    ]
}

/// The environment of an interactive shell: the inherited variables, then the
/// accumulated ones, then the `PATH` additions.
pub open spec fn shell_env_entries(
    inherited: Seq<(Seq<char>, Seq<char>)>,
    accumulated: Seq<(Seq<char>, Seq<char>)>,
    additions: Seq<Seq<char>>,
) -> Seq<(Seq<char>, Seq<char>)> {
    with_path(insert_all(inherited, accumulated), additions)
}

/// The environment of a step: the inherited variables, then the accumulated
/// ones, then the step's own `env:`, then the `PATH` additions, then the
/// runner's variables.
pub open spec fn step_env_entries(
    inherited: Seq<(Seq<char>, Seq<char>)>,
    accumulated: Seq<(Seq<char>, Seq<char>)>,
    step_env: Seq<(Seq<char>, Seq<char>)>,
    additions: Seq<Seq<char>>,
    workspace: Seq<char>,
    files: (Seq<char>, Seq<char>, Seq<char>),
) -> Seq<(Seq<char>, Seq<char>)> {
    insert_all(
        with_path(insert_all(insert_all(inherited, accumulated), step_env), additions),
        runner_vars(workspace, files.0, files.1, files.2),
    )
}

/// The trimmed, non-empty lines of a `$GITHUB_PATH` file, in order.
pub open spec fn path_entries(ls: Seq<Seq<char>>) -> Seq<Seq<char>>
    decreases ls.len(),
{
    if ls.len() == 0 {
        Seq::empty()
    } else {
        path_entries(ls.drop_last()) + if trim(ls.last()).len() > 0 {
            seq![trim(ls.last())]
        } else {
            Seq::empty()
        }
    }
}

/// The name stem of the files of the `counter`-th step command of process `pid`.
pub open spec fn step_tag(pid: nat, counter: nat) -> Seq<char> {
    "walkflow-"@ + decimal(pid) + "-"@ + decimal(counter)
}

/// The program of a `shell:` value.
pub open spec fn shell_program(shell: Option<Seq<char>>) -> Seq<char> {
    match shell {
        None => "bash"@,
        Some(s) => if trim(s) == "sh"@ {
            "sh"@
        } else if trim(s) == "bash"@ {
            "bash"@
        } else {
            trim(s)
        },
    }
}

/// The arguments, after the program, that run `command` under a `shell:` value.
pub open spec fn shell_args(shell: Option<Seq<char>>, command: Seq<char>) -> Seq<Seq<char>> {
    let bash = seq!["--noprofile"@, "--norc"@, "-eo"@, "pipefail"@, "-c"@, command];
    match shell {
        None => bash,
        Some(s) => if trim(s) == "sh"@ {
            seq!["-e"@, "-c"@, command]
        } else if trim(s) == "bash"@ {
            bash
        } else {
            seq!["-c"@, command]
        },
    }
}

/// The view of an optional string.
pub open spec fn opt_view(o: Option<&str>) -> Option<Seq<char>> {
    match o {
        Some(s) => Some(s@),
        None => None,
    }
}

/// Maps an Actions `shell:` value to a program and its arguments: bash with
/// the strict flags Actions uses by default, `sh -e` for `sh`, and
/// `<program> -c` for anything else.
pub fn shell_invocation(shell: Option<&str>, command: &str) -> (r: (String, Vec<String>))
    ensures
        r.0@ == shell_program(opt_view(shell)),
        views(r.1@) == shell_args(opt_view(shell), command@),
{
    let bash = || -> (r: (String, Vec<String>))
        ensures
            r.0@ == "bash"@,
            views(r.1@) == seq!["--noprofile"@, "--norc"@, "-eo"@, "pipefail"@, "-c"@, command@],
        {
            let args = vec![
                "--noprofile".to_owned(),
                "--norc".to_owned(),
                "-eo".to_owned(),
                "pipefail".to_owned(),
                "-c".to_owned(),
                command.to_owned(),
            ];
            assert(views(args@) =~= seq![
                "--noprofile"@,
                "--norc"@,
                "-eo"@,
                "pipefail"@,
                "-c"@,
                command@,
            ]);
            ("bash".to_owned(), args)
        };
    match shell {
        None => bash(),
        Some(s) => {
            let t = trimmed(s);
            if same_text(t.as_str(), "sh") {
                let args = vec!["-e".to_owned(), "-c".to_owned(), command.to_owned()];
                assert(views(args@) =~= seq!["-e"@, "-c"@, command@]);
                ("sh".to_owned(), args)
            } else if same_text(t.as_str(), "bash") {
                bash()
            } else {
                let args = vec!["-c".to_owned(), command.to_owned()];
                assert(views(args@) =~= seq!["-c"@, command@]);
                (t, args)
            }
        },
    }
}

impl Runner {
    /// A runner for `workspace`, seeded with `base_env`. It pauses between
    /// steps unless `assume_yes` holds or input and output are not a terminal.
    pub fn new(
        workspace: String,
        base_env: IndexMap<String, String>,
        assume_yes: bool,
        on_terminal: bool,
    ) -> (r: Runner)
        ensures
            r.workspace == workspace,
            r.env == base_env,
            r.path_additions@.len() == 0,
            r.interactive == (!assume_yes && on_terminal),
            r.counter == 0,
    {
        Runner {
            workspace,
            env: base_env,
            path_additions: Vec::new(),
            interactive: !assume_yes && on_terminal,
            counter: 0,
        }
    }

    /// Starts walking `job`: layers the job's `env:` over the accumulated
    /// environment, and gives the job's working directory (its
    /// `working-directory` under the workspace, or the workspace itself) and
    /// the walk, which pauses from step `from` on when the runner is
    /// interactive. The caller carries out the walk's actions.
    pub fn run_job(&mut self, job: &Job, from: usize) -> (r: (String, JobWalk))
        ensures
            env_entries(final(self).env) == insert_all(
                env_entries(old(self).env),
                env_entries(job.env),
            ),
            final(self).workspace == old(self).workspace,
            final(self).path_additions == old(self).path_additions,
            final(self).interactive == old(self).interactive,
            final(self).counter == old(self).counter,
            r.0@ == match job.working_directory {
                Some(w) => join_path(old(self).workspace@, w@),
                None => old(self).workspace@,
            },
            r.1@ == (WalkState {
                index: 0,
                stage: Stage::Start,
                report: RunReport { ran: 0, skipped: 0, failed: 0 },
                command: Seq::empty(),
                from,
                interactive: old(self).interactive,
                total: job.steps.len(),
            }),
            walk_wf(r.1@),
    {
        let wd = match &job.working_directory {
            Some(w) => join_paths(self.workspace.as_str(), w.as_str()),
            None => self.workspace.clone(),
        };
        insert_each(&mut self.env, &job.env);
        let walk = JobWalk::new(&job.steps, from, self.interactive);
        (wd, walk)
    }

    /// The directory a step runs in: its own `working-directory` under the
    /// workspace, or the job's directory.
    pub fn step_dir(&self, step: &Step, job_wd: &str) -> (r: String)
        ensures
            r@ == match step.working_directory {
                Some(w) => join_path(self.workspace@, w@),
                None => job_wd@,
            },
    {
        match &step.working_directory {
            Some(w) => join_paths(self.workspace.as_str(), w.as_str()),
            None => job_wd.to_owned(),
        }
    }

    /// Counts one more step command and names the files, under `tmp`, through
    /// which it exports state.
    pub fn step_files(&mut self, tmp: &str, pid: u32) -> (r: StepFiles)
        requires
            old(self).counter < u64::MAX,
        ensures
            final(self).counter == old(self).counter + 1,
            final(self).workspace == old(self).workspace,
            final(self).env == old(self).env,
            final(self).path_additions == old(self).path_additions,
            final(self).interactive == old(self).interactive,
            r.env@ == join_path(tmp@, step_tag(pid as nat, final(self).counter as nat) + ".env"@),
            r.path@ == join_path(tmp@, step_tag(pid as nat, final(self).counter as nat) + ".path"@),
            r.output@ == join_path(
                tmp@,
                step_tag(pid as nat, final(self).counter as nat) + ".output"@,
            ),
    {
        self.counter = self.counter + 1;
        let mut tag = "walkflow-".to_owned();
        tag.append(decimal_string(pid as u64).as_str());
        tag.append("-");
        tag.append(decimal_string(self.counter).as_str());
        let mut env_name = tag.clone();
        env_name.append(".env");
        let mut path_name = tag.clone();
        path_name.append(".path");
        let mut output_name = tag.clone();
        output_name.append(".output");
        StepFiles {
            env: join_paths(tmp, env_name.as_str()),
            path: join_paths(tmp, path_name.as_str()),
            output: join_paths(tmp, output_name.as_str()),
        }
    }

    /// Puts the `PATH` additions in front of `PATH`.
    fn add_path(&self, env: &mut IndexMap<String, String>)
        ensures
            env_entries(*final(env)) == with_path(env_entries(*old(env)), views(self.path_additions@)),
    {
        if self.path_additions.len() > 0 {
            let existing = match env_get(env, "PATH") {
                Some(p) => p.clone(),
                None => String::new(),
            };
            let mut joined = join_strings_of(&self.path_additions);
            joined.append(":");
            joined.append(existing.as_str());
            env_insert(env, "PATH".to_owned(), joined);
        }
    }

    /// The environment of an interactive shell opened between steps.
    pub fn shell_env(&self, inherited: IndexMap<String, String>) -> (r: IndexMap<String, String>)
        ensures
            env_entries(r) == shell_env_entries(
                env_entries(inherited),
                env_entries(self.env),
                views(self.path_additions@),
            ),
            forall|k: Seq<char>|
                (self.path_additions@.len() == 0 || k != "PATH"@) ==> #[trigger] lookup(
                    env_entries(r),
                    k,
                ) == match lookup(env_entries(self.env), k) {
                    Some(v) => Some(v),
                    None => lookup(env_entries(inherited), k),
                },
            self.path_additions@.len() > 0 ==> lookup(env_entries(r), "PATH"@) == Some(
                join(views(self.path_additions@), ":"@) + ":"@ + match lookup(
                    env_entries(self.env),
                    "PATH"@,
                ) {
                    Some(p) => p,
                    None => match lookup(env_entries(inherited), "PATH"@) {
                        Some(p) => p,
                        None => Seq::empty(),
                    },
                },
            ),
    {
        env_len(&self.env);
        proof {
            let inh = env_entries(inherited);
            let acc = env_entries(self.env);
            let add = views(self.path_additions@);
            assert forall|k: Seq<char>| (add.len() == 0 || k != "PATH"@) implies #[trigger] lookup(
                shell_env_entries(inh, acc, add),
                k,
            ) == match lookup(acc, k) {
                Some(v) => Some(v),
                None => lookup(inh, k),
            } by {
                law_shell_env_layering(inh, acc, add, k);
            }
            if add.len() > 0 {
                law_shell_env_path(inh, acc, add);
            }
        }
        let mut env = inherited;
        insert_each(&mut env, &self.env);
        self.add_path(&mut env);
        env
    }

    /// The environment a step's command runs with.
    pub fn step_env(&self, step: &Step, inherited: IndexMap<String, String>, files: &StepFiles) -> (r:
        IndexMap<String, String>)
        ensures
            env_entries(r) == step_env_entries(
                env_entries(inherited),
                env_entries(self.env),
                env_entries(step.env),
                views(self.path_additions@),
                self.workspace@,
                (files.env@, files.path@, files.output@),
            ),
            forall|k: Seq<char>|
                !is_runner_var(k) && (self.path_additions@.len() == 0 || k != "PATH"@)
                    ==> #[trigger] lookup(env_entries(r), k) == layered_lookup(
                    env_entries(inherited),
                    env_entries(self.env),
                    env_entries(step.env),
                    k,
                ),
            self.path_additions@.len() > 0 ==> lookup(env_entries(r), "PATH"@) == Some(
                join(views(self.path_additions@), ":"@) + ":"@ + match layered_lookup(
                    env_entries(inherited),
                    env_entries(self.env),
                    env_entries(step.env),
                    "PATH"@,
                ) {
                    Some(p) => p,
                    None => Seq::empty(),
                },
            ),
            lookup(env_entries(r), "CI"@) == Some("true"@),
            lookup(env_entries(r), "GITHUB_ACTIONS"@) == Some("true"@),
            lookup(env_entries(r), "WALKFLOW"@) == Some("true"@),
            lookup(env_entries(r), "GITHUB_WORKSPACE"@) == Some(self.workspace@),
            lookup(env_entries(r), "GITHUB_ENV"@) == Some(files.env@),
            lookup(env_entries(r), "GITHUB_PATH"@) == Some(files.path@),
            lookup(env_entries(r), "GITHUB_OUTPUT"@) == Some(files.output@),
    {
        env_len(&self.env);
        env_len(&step.env);
        let ghost inh = env_entries(inherited);
        let ghost acc = env_entries(self.env);
        let ghost st = env_entries(step.env);
        let ghost add = views(self.path_additions@);
        let ghost fs = (files.env@, files.path@, files.output@);
        proof {
            assert forall|k: Seq<char>|
                !is_runner_var(k) && (self.path_additions@.len() == 0 || k != "PATH"@) implies
                #[trigger] lookup(step_env_entries(inh, acc, st, add, self.workspace@, fs), k)
                == layered_lookup(inh, acc, st, k) by {
                law_step_env_layering(inh, acc, st, add, self.workspace@, fs, k);
            }
            if add.len() > 0 {
                law_step_env_path(inh, acc, st, add, self.workspace@, fs);
            }
            law_step_env_runner_vars(inh, acc, st, add, self.workspace@, fs);
        }
        let mut env = inherited;
        insert_each(&mut env, &self.env);
        insert_each(&mut env, &step.env);
        self.add_path(&mut env);
        let vars = vec![
            ("CI".to_owned(), "true".to_owned()),
            ("GITHUB_ACTIONS".to_owned(), "true".to_owned()),
            ("WALKFLOW".to_owned(), "true".to_owned()),
            ("GITHUB_WORKSPACE".to_owned(), self.workspace.clone()),
            ("GITHUB_ENV".to_owned(), files.env.clone()),
            ("GITHUB_PATH".to_owned(), files.path.clone()),
            ("GITHUB_OUTPUT".to_owned(), files.output.clone()),
        ];
        assert(pair_views(vars@) =~= runner_vars(
            self.workspace@,
            files.env@,
            files.path@,
            files.output@,
        ));
        insert_pairs(&mut env, vars);
        env
    }

    /// Absorbs what a step exported: the text of its `$GITHUB_ENV` file is
    /// merged into the environment, and each non-blank line of its
    /// `$GITHUB_PATH` file, trimmed, is added to the `PATH` additions.
    pub fn absorb(&mut self, env_text: Option<&str>, path_text: Option<&str>)
        ensures
            env_entries(final(self).env) == match env_text {
                Some(c) => insert_all(env_entries(old(self).env), github_env_assignments(c@)),
                None => env_entries(old(self).env),
            },
            views(final(self).path_additions@) == views(old(self).path_additions@) + match path_text {
                Some(c) => path_entries(lines(c@)),
                None => Seq::empty(),
            },
            final(self).workspace == old(self).workspace,
            final(self).interactive == old(self).interactive,
            final(self).counter == old(self).counter,
    {
        if let Some(c) = env_text {
            merge_github_env(c, &mut self.env);
        }
        if let Some(c) = path_text {
            let ls = split_lines(c);
            let n = ls.len();
            let ghost start = views(self.path_additions@);
            let mut i: usize = 0;
            while i < n
                invariant
                    n == ls.len(),
                    i <= n,
                    views(ls@) == lines(c@),
                    views(self.path_additions@) == start + path_entries(views(ls@).take(i as int)),
                    self.workspace == old(self).workspace,
                    self.interactive == old(self).interactive,
                    self.counter == old(self).counter,
                    env_entries(self.env) == match env_text {
                        Some(c) => insert_all(env_entries(old(self).env), github_env_assignments(c@)),
                        None => env_entries(old(self).env),
                    },
                decreases n - i,
            {
                let d = trimmed(ls[i].as_str());
                let ghost before = views(self.path_additions@);
                proof {
                    let t = views(ls@).take(i + 1);
                    assert(t.drop_last() =~= views(ls@).take(i as int));
                    assert(t.last() == ls@[i as int]@);
                }
                if !d.as_str().is_empty() {
                    self.path_additions.push(d);
                    proof {
                        assert(views(self.path_additions@) =~= before.push(d@));
                        assert(start + path_entries(views(ls@).take(i + 1)) =~= before + seq![d@]);
                    }
                } else {
                    assert(start + path_entries(views(ls@).take(i + 1)) =~= before);
                }
                i += 1;
            }
            assert(views(ls@).take(n as int) =~= views(ls@));
        } else {
            assert(views(self.path_additions@) =~= views(self.path_additions@) + Seq::<Seq<char>>::empty());
        }
    }
}

/// The `PATH` additions joined by `:`.
fn join_strings_of(parts: &Vec<String>) -> (r: String)
    ensures
        r@ == join(views(parts@), ":"@),
{
    crate::text::join_strings(parts, ":")
}

/// A lookup through the layers of a step's environment: the step's `env:`,
/// then the accumulated environment, then the inherited one.
pub open spec fn layered_lookup(
    inherited: Seq<(Seq<char>, Seq<char>)>,
    accumulated: Seq<(Seq<char>, Seq<char>)>,
    step_env: Seq<(Seq<char>, Seq<char>)>,
    k: Seq<char>,
) -> Option<Seq<char>> {
    match lookup(step_env, k) {
        Some(v) => Some(v),
        None => match lookup(accumulated, k) {
            Some(v) => Some(v),
            None => lookup(inherited, k),
        },
    }
}

/// Whether `k` is one of the variables the runner sets for every step.
pub open spec fn is_runner_var(k: Seq<char>) -> bool {
    ||| k == "CI"@
    ||| k == "GITHUB_ACTIONS"@
    ||| k == "WALKFLOW"@
    ||| k == "GITHUB_WORKSPACE"@
    ||| k == "GITHUB_ENV"@
    ||| k == "GITHUB_PATH"@
    ||| k == "GITHUB_OUTPUT"@
}

proof fn lemma_layers(
    inherited: Seq<(Seq<char>, Seq<char>)>,
    accumulated: Seq<(Seq<char>, Seq<char>)>,
    step_env: Seq<(Seq<char>, Seq<char>)>,
    k: Seq<char>,
)
    requires
        keys_distinct(accumulated),
        keys_distinct(step_env),
    ensures
        lookup(insert_all(insert_all(inherited, accumulated), step_env), k) == layered_lookup(
            inherited,
            accumulated,
            step_env,
            k,
        ),
{
    lemma_lookup_insert_all(insert_all(inherited, accumulated), step_env, k);
    lemma_lookup_insert_all(inherited, accumulated, k);
    lemma_last_value_distinct(step_env, k);
    lemma_last_value_distinct(accumulated, k);
}

proof fn lemma_var_names_distinct()
    ensures
        "CI"@.len() == 2,
        "WALKFLOW"@.len() == 8,
        "GITHUB_ENV"@.len() == 10,
        "GITHUB_PATH"@.len() == 11,
        "GITHUB_ACTIONS"@.len() == 14,
        "GITHUB_WORKSPACE"@.len() == 16,
        "GITHUB_OUTPUT"@.len() == 13,
        "PATH"@.len() == 4,
{
    reveal_strlit("PATH");
    reveal_strlit("CI");
    reveal_strlit("GITHUB_ACTIONS");
    reveal_strlit("WALKFLOW");
    reveal_strlit("GITHUB_WORKSPACE");
    reveal_strlit("GITHUB_ENV");
    reveal_strlit("GITHUB_PATH");
    reveal_strlit("GITHUB_OUTPUT");
}

proof fn lemma_runner_vars_last(
    ws: Seq<char>,
    files: (Seq<char>, Seq<char>, Seq<char>),
    k: Seq<char>,
)
    ensures
        last_value(runner_vars(ws, files.0, files.1, files.2), k) == if k == "GITHUB_OUTPUT"@ {
            Some(files.2)
        } else if k == "GITHUB_PATH"@ {
            Some(files.1)
        } else if k == "GITHUB_ENV"@ {
            Some(files.0)
        } else if k == "GITHUB_WORKSPACE"@ {
            Some(ws)
        } else if k == "WALKFLOW"@ || k == "GITHUB_ACTIONS"@ || k == "CI"@ {
            Some("true"@)
        } else {
            None
        },
{
    let v = runner_vars(ws, files.0, files.1, files.2);
    let v6 = v.drop_last();
    let v5 = v6.drop_last();
    let v4 = v5.drop_last();
    let v3 = v4.drop_last();
    let v2 = v3.drop_last();
    let v1 = v2.drop_last();
    let v0 = v1.drop_last();
    assert(v0 =~= Seq::<(Seq<char>, Seq<char>)>::empty());
    assert(last_value(v0, k) == None::<Seq<char>>);
    assert(last_value(v1, k) == if k == "CI"@ { Some("true"@) } else { None });
    assert(last_value(v2, k) == if k == "GITHUB_ACTIONS"@ { Some("true"@) } else { last_value(v1, k) });
    assert(last_value(v3, k) == if k == "WALKFLOW"@ { Some("true"@) } else { last_value(v2, k) });
    assert(last_value(v4, k) == if k == "GITHUB_WORKSPACE"@ { Some(ws) } else { last_value(v3, k) });
    assert(last_value(v5, k) == if k == "GITHUB_ENV"@ { Some(files.0) } else { last_value(v4, k) });
    assert(last_value(v6, k) == if k == "GITHUB_PATH"@ { Some(files.1) } else { last_value(v5, k) });
}

/// The shell opened between steps sees every variable the steps have
/// accumulated (workflow, job and `$GITHUB_ENV`), over the inherited ones:
/// for any variable (other than `PATH` when there are `PATH` additions), the
/// accumulated value when there is one, else the inherited one.
pub proof fn law_shell_env_layering(
    inherited: Seq<(Seq<char>, Seq<char>)>,
    accumulated: Seq<(Seq<char>, Seq<char>)>,
    additions: Seq<Seq<char>>,
    k: Seq<char>,
)
    requires
        keys_distinct(accumulated),
        additions.len() == 0 || k != "PATH"@,
    ensures
        lookup(shell_env_entries(inherited, accumulated, additions), k) == match lookup(
            accumulated,
            k,
        ) {
            Some(v) => Some(v),
            None => lookup(inherited, k),
        },
{
    let b = insert_all(inherited, accumulated);
    lemma_lookup_insert_all(inherited, accumulated, k);
    lemma_last_value_distinct(accumulated, k);
    if additions.len() > 0 {
        let existing = match lookup(b, "PATH"@) {
            Some(p) => p,
            None => Seq::empty(),
        };
        lemma_lookup_insert(b, "PATH"@, join(additions, ":"@) + ":"@ + existing, k);
    }
}

/// In the shell opened between steps, the `PATH` additions come first in
/// `PATH`, joined by `:`, before the accumulated or else inherited `PATH`.
pub proof fn law_shell_env_path(
    inherited: Seq<(Seq<char>, Seq<char>)>,
    accumulated: Seq<(Seq<char>, Seq<char>)>,
    additions: Seq<Seq<char>>,
)
    requires
        keys_distinct(accumulated),
        additions.len() > 0,
    ensures
        lookup(shell_env_entries(inherited, accumulated, additions), "PATH"@) == Some(
            join(additions, ":"@) + ":"@ + match lookup(accumulated, "PATH"@) {
                Some(p) => p,
                None => match lookup(inherited, "PATH"@) {
                    Some(p) => p,
                    None => Seq::empty(),
                },
            },
        ),
{
    let b = insert_all(inherited, accumulated);
    lemma_lookup_insert_all(inherited, accumulated, "PATH"@);
    lemma_last_value_distinct(accumulated, "PATH"@);
    let existing = match lookup(b, "PATH"@) {
        Some(p) => p,
        None => Seq::empty(),
    };
    lemma_lookup_insert(b, "PATH"@, join(additions, ":"@) + ":"@ + existing, "PATH"@);
}

/// A step whose `shell:` is `bash` (spaces aside) runs exactly as a step with
/// no `shell:`: `bash --noprofile --norc -eo pipefail -c <command>`, so that the
/// script stops at its first failing command. `sh` runs as `sh -e -c
/// <command>`, and any other shell as `<shell> -c <command>`.
pub proof fn law_shell_choice(s: Seq<char>, command: Seq<char>)
    ensures
        shell_program(None) == "bash"@,
        shell_args(None, command) == seq![
            "--noprofile"@,
            "--norc"@,
            "-eo"@,
            "pipefail"@,
            "-c"@,
            command,
        ],
        trim(s) == "bash"@ ==> shell_program(Some(s)) == shell_program(None) && shell_args(
            Some(s),
            command,
        ) == shell_args(None, command),
        trim(s) == "sh"@ ==> shell_program(Some(s)) == "sh"@ && shell_args(Some(s), command)
            == seq!["-e"@, "-c"@, command],
        trim(s) != "sh"@ && trim(s) != "bash"@ ==> shell_program(Some(s)) == trim(s)
            && shell_args(Some(s), command) == seq!["-c"@, command],
{
    reveal_strlit("sh");
    reveal_strlit("bash");
    assert("sh"@.len() != "bash"@.len());
}

/// Environment layering: for a variable the runner does not set (and, when
/// there are `PATH` additions, other than `PATH`), a step sees its own `env:`
/// value, else the accumulated one (workflow, job and `$GITHUB_ENV`), else the
/// inherited one.
pub proof fn law_step_env_layering(
    inherited: Seq<(Seq<char>, Seq<char>)>,
    accumulated: Seq<(Seq<char>, Seq<char>)>,
    step_env: Seq<(Seq<char>, Seq<char>)>,
    additions: Seq<Seq<char>>,
    workspace: Seq<char>,
    files: (Seq<char>, Seq<char>, Seq<char>),
    k: Seq<char>,
)
    requires
        keys_distinct(accumulated),
        keys_distinct(step_env),
        !is_runner_var(k),
        additions.len() == 0 || k != "PATH"@,
    ensures
        lookup(
            step_env_entries(inherited, accumulated, step_env, additions, workspace, files),
            k,
        ) == layered_lookup(inherited, accumulated, step_env, k),
{
    let b = insert_all(insert_all(inherited, accumulated), step_env);
    lemma_layers(inherited, accumulated, step_env, k);
    if additions.len() > 0 {
        let existing = match lookup(b, "PATH"@) {
            Some(p) => p,
            None => Seq::empty(),
        };
        lemma_lookup_insert(b, "PATH"@, join(additions, ":"@) + ":"@ + existing, k);
    }
    lemma_lookup_insert_all(with_path(b, additions), runner_vars(workspace, files.0, files.1, files.2), k);
    lemma_runner_vars_last(workspace, files, k);
}

/// Layering through a whole job: a runner seeded with the workflow's `env:`
/// and started on a job gives a step, for a variable the runner does not set
/// (and, when there are `PATH` additions, other than `PATH`), the step's
/// `env:` value, else the job's, else the workflow's, else the inherited one.
pub proof fn law_workflow_job_step_layering(
    inherited: Seq<(Seq<char>, Seq<char>)>,
    workflow_env: Seq<(Seq<char>, Seq<char>)>,
    job_env: Seq<(Seq<char>, Seq<char>)>,
    step_env: Seq<(Seq<char>, Seq<char>)>,
    additions: Seq<Seq<char>>,
    workspace: Seq<char>,
    files: (Seq<char>, Seq<char>, Seq<char>),
    k: Seq<char>,
)
    requires
        keys_distinct(workflow_env),
        keys_distinct(job_env),
        keys_distinct(step_env),
        !is_runner_var(k),
        additions.len() == 0 || k != "PATH"@,
    ensures
        lookup(
            step_env_entries(
                inherited,
                insert_all(workflow_env, job_env),
                step_env,
                additions,
                workspace,
                files,
            ),
            k,
        ) == match lookup(step_env, k) {
            Some(v) => Some(v),
            None => match lookup(job_env, k) {
                Some(v) => Some(v),
                None => match lookup(workflow_env, k) {
                    Some(v) => Some(v),
                    None => lookup(inherited, k),
                },
            },
        },
{
    let acc = insert_all(workflow_env, job_env);
    lemma_insert_all_keeps_distinct(workflow_env, job_env);
    law_step_env_layering(inherited, acc, step_env, additions, workspace, files, k);
    lemma_lookup_insert_all(workflow_env, job_env, k);
    lemma_last_value_distinct(job_env, k);
}

/// The directories that steps added through `$GITHUB_PATH` come first in a
/// step's `PATH`, oldest first, joined by `:`, before the `PATH` it would
/// otherwise see.
pub proof fn law_step_env_path(
    inherited: Seq<(Seq<char>, Seq<char>)>,
    accumulated: Seq<(Seq<char>, Seq<char>)>,
    step_env: Seq<(Seq<char>, Seq<char>)>,
    additions: Seq<Seq<char>>,
    workspace: Seq<char>,
    files: (Seq<char>, Seq<char>, Seq<char>),
)
    requires
        keys_distinct(accumulated),
        keys_distinct(step_env),
        additions.len() > 0,
    ensures
        lookup(
            step_env_entries(inherited, accumulated, step_env, additions, workspace, files),
            "PATH"@,
        ) == Some(join(additions, ":"@) + ":"@ + match layered_lookup(
            inherited,
            accumulated,
            step_env,
            "PATH"@,
        ) {
            Some(p) => p,
            None => Seq::empty(),
        }),
{
    lemma_var_names_distinct();
    let b = insert_all(insert_all(inherited, accumulated), step_env);
    lemma_layers(inherited, accumulated, step_env, "PATH"@);
    let existing = match lookup(b, "PATH"@) {
        Some(p) => p,
        None => Seq::empty(),
    };
    lemma_lookup_insert(b, "PATH"@, join(additions, ":"@) + ":"@ + existing, "PATH"@);
    lemma_lookup_insert_all(
        with_path(b, additions),
        runner_vars(workspace, files.0, files.1, files.2),
        "PATH"@,
    );
    lemma_runner_vars_last(workspace, files, "PATH"@);
}

/// Every step sees `CI`, `GITHUB_ACTIONS` and `WALKFLOW` set to `true`,
/// `GITHUB_WORKSPACE` set to the workspace, and `GITHUB_ENV`, `GITHUB_PATH`,
/// `GITHUB_OUTPUT` set to its own files, whatever the layers below say.
pub proof fn law_step_env_runner_vars(
    inherited: Seq<(Seq<char>, Seq<char>)>,
    accumulated: Seq<(Seq<char>, Seq<char>)>,
    step_env: Seq<(Seq<char>, Seq<char>)>,
    additions: Seq<Seq<char>>,
    workspace: Seq<char>,
    files: (Seq<char>, Seq<char>, Seq<char>),
)
    ensures
        ({
            let e = step_env_entries(inherited, accumulated, step_env, additions, workspace, files);
            &&& lookup(e, "CI"@) == Some("true"@)
            &&& lookup(e, "GITHUB_ACTIONS"@) == Some("true"@)
            &&& lookup(e, "WALKFLOW"@) == Some("true"@)
            &&& lookup(e, "GITHUB_WORKSPACE"@) == Some(workspace)
            &&& lookup(e, "GITHUB_ENV"@) == Some(files.0)
            &&& lookup(e, "GITHUB_PATH"@) == Some(files.1)
            &&& lookup(e, "GITHUB_OUTPUT"@) == Some(files.2)
        }),
{
    let b = with_path(insert_all(insert_all(inherited, accumulated), step_env), additions);
    let v = runner_vars(workspace, files.0, files.1, files.2);
    lemma_var_names_distinct();
    lemma_lookup_insert_all(b, v, "CI"@);
    lemma_runner_vars_last(workspace, files, "CI"@);
    lemma_lookup_insert_all(b, v, "GITHUB_ACTIONS"@);
    lemma_runner_vars_last(workspace, files, "GITHUB_ACTIONS"@);
    lemma_lookup_insert_all(b, v, "WALKFLOW"@);
    lemma_runner_vars_last(workspace, files, "WALKFLOW"@);
    lemma_lookup_insert_all(b, v, "GITHUB_WORKSPACE"@);
    lemma_runner_vars_last(workspace, files, "GITHUB_WORKSPACE"@);
    lemma_lookup_insert_all(b, v, "GITHUB_ENV"@);
    lemma_runner_vars_last(workspace, files, "GITHUB_ENV"@);
    lemma_lookup_insert_all(b, v, "GITHUB_PATH"@);
    lemma_runner_vars_last(workspace, files, "GITHUB_PATH"@);
    lemma_lookup_insert_all(b, v, "GITHUB_OUTPUT"@);
    lemma_runner_vars_last(workspace, files, "GITHUB_OUTPUT"@);
}

} // verus!
