//! A GitHub Actions workflow: the subset of fields that the local step runner uses.
use crate::envmap::find_key;
use crate::text::{
    decimal, decimal_string, first_line, split_lines, trim, trimmed, views,
};
use indexmap::IndexMap;
use vstd::prelude::*;

verus! {

/// A parsed workflow file. Unknown keys are ignored, so that real-world
/// workflows load.
#[derive(Debug)]
pub struct Workflow {
    pub name: Option<String>,
    pub env: IndexMap<String, String>,
    pub jobs: IndexMap<String, Job>,
}

/// One job of a workflow.
#[derive(Debug)]
pub struct Job {
    pub name: Option<String>,
    pub env: IndexMap<String, String>,
    pub working_directory: Option<String>,
    pub steps: Vec<Step>,
}

/// One step of a job.
#[derive(Debug)]
pub struct Step {
    pub name: Option<String>,
    pub run: Option<String>,
    pub uses: Option<String>,
    pub shell: Option<String>,
    pub env: IndexMap<String, String>,
    pub working_directory: Option<String>,
    pub cond: Option<String>,
}

/// Why a workflow, or a job of it, cannot be used.
#[derive(Debug)]
pub enum WorkflowError {
    /// The workflow defines no job.
    NoJobs,
    /// The job asked for does not exist; `available` lists the job ids.
    JobNotFound { wanted: String, available: Vec<String> },
    /// No job was asked for and there is not exactly one; `available` lists them.
    AmbiguousJob { count: usize, available: Vec<String> },
}

/// The jobs of a workflow, as (id, job) pairs in the file's order.
pub uninterp spec fn job_entries(m: IndexMap<String, Job>) -> Seq<(Seq<char>, Job)>;

/// Wraps `IndexMap::len` on the jobs: their number.
#[verifier::external_body]
fn jobs_len(m: &IndexMap<String, Job>) -> (r: usize)
    ensures
        r == job_entries(*m).len(),
{
    m.len()
}

/// Wraps `IndexMap::get_index` on the jobs: the pair at position `i`, if any.
#[verifier::external_body]
fn jobs_get_index(m: &IndexMap<String, Job>, i: usize) -> (r: Option<(&String, &Job)>)
    ensures
        if i < job_entries(*m).len() {
            r matches Some(p) && p.0@ == job_entries(*m)[i as int].0 && *p.1 == job_entries(
                *m,
            )[i as int].1
        } else {
            r is None
        },
{
    m.get_index(i)
}

/// Wraps `IndexMap::get_key_value` on the jobs: the first pair whose id equals `k`.
#[verifier::external_body]
fn jobs_get_key_value<'a>(m: &'a IndexMap<String, Job>, k: &str) -> (r: Option<
    (&'a String, &'a Job),
>)
    ensures
        if find_key(job_entries(*m), k@) is Some {
            r matches Some(p) && p.0@ == job_entries(*m)[find_key(
                job_entries(*m),
                k@,
            ).unwrap()].0 && *p.1 == job_entries(*m)[find_key(job_entries(*m), k@).unwrap()].1
        } else {
            r is None
        },
{
    m.get_key_value(k)
}

/// The ids of the jobs, in order.
pub open spec fn job_ids(jobs: Seq<(Seq<char>, Job)>) -> Seq<Seq<char>> {
    jobs.map_values(|p: (Seq<char>, Job)| p.0)
}

/// The text that labels a step: its name; else `uses <action>`; else
/// `run: ` and the trimmed first line of its script; else `step <n>`, counting from 1.
pub open spec fn step_label(step: Step, index: int) -> Seq<char> {
    match step.name {
        Some(n) => n@,
        None => match step.uses {
            Some(u) => "uses "@ + u@,
            None => match step.run {
                Some(r) => "run: "@ + trim(first_line(r@)),
                None => "step "@ + decimal((index + 1) as nat),
            },
        },
    }
}

impl Step {
    /// A human label for the step, as the Actions UI names steps.
    pub fn label(&self, index: usize) -> (r: String)
        requires
            index < usize::MAX,
        ensures
            r@ == step_label(*self, index as int),
    {
        if let Some(n) = &self.name {
            return n.clone();
        }
        if let Some(u) = &self.uses {
            let mut out = "uses ".to_owned();
            out.append(u.as_str());
            return out;
        }
        if let Some(r) = &self.run {
            let ls = split_lines(r.as_str());
            let mut out = "run: ".to_owned();
            if ls.len() > 0 {
                proof {
                    assert(views(ls@)[0] == ls@[0]@);
                }
                let first = trimmed(ls[0].as_str());
                out.append(first.as_str());
            } else {
                assert(trim(first_line(r@)) =~= Seq::<char>::empty());
            }
            return out;
        }
        let mut out = "step ".to_owned();
        let number = decimal_string((index + 1) as u64);
        out.append(number.as_str());
        out
    }
}

impl Workflow {
    /// The ids of the jobs, in order.
    pub fn job_names(&self) -> (r: Vec<String>)
        ensures
            views(r@) == job_ids(job_entries(self.jobs)),
    {
        let n = jobs_len(&self.jobs);
        let mut out: Vec<String> = Vec::new();
        let mut i: usize = 0;
        while i < n
            invariant
                n == job_entries(self.jobs).len(),
                i <= n,
                views(out@) == job_ids(job_entries(self.jobs)).take(i as int),
            decreases n - i,
        {
            let (k, _) = jobs_get_index(&self.jobs, i).unwrap();
            let ghost before = out@;
            out.push(k.clone());
            proof {
                assert(views(out@) =~= views(before).push(k@));
                assert(job_ids(job_entries(self.jobs)).take(i + 1) =~= job_ids(
                    job_entries(self.jobs),
                ).take(i as int).push(k@));
            }
            i += 1;
        }
        assert(job_ids(job_entries(self.jobs)).take(n as int) =~= job_ids(
            job_entries(self.jobs),
        ));
        out
    }

    /// Accepts a parsed workflow only if it defines at least one job.
    pub fn checked(self) -> (r: Result<Workflow, WorkflowError>)
        ensures
            job_entries(self.jobs).len() > 0 ==> r == Ok::<Workflow, WorkflowError>(self),
            job_entries(self.jobs).len() == 0 ==> r matches Err(WorkflowError::NoJobs),
    {
        if jobs_len(&self.jobs) == 0 {
            Err(WorkflowError::NoJobs)
        } else {
            Ok(self)
        }
    }

    /// Picks the job to run. A job asked for by id must exist; with none asked
    /// for, a workflow of exactly one job gives that job.
    pub fn select_job<'a>(&'a self, wanted: Option<&str>) -> (r: Result<
        (&'a str, &'a Job),
        WorkflowError,
    >)
        ensures
            match wanted {
                Some(w) => match find_key(job_entries(self.jobs), w@) {
                    Some(i) => r matches Ok(p) && p.0@ == job_entries(self.jobs)[i].0 && *p.1
                        == job_entries(self.jobs)[i].1,
                    None => r matches Err(WorkflowError::JobNotFound { wanted: w2, available })
                        && w2@ == w@ && views(available@) == job_ids(job_entries(self.jobs)),
                },
                None => if job_entries(self.jobs).len() == 1 {
                    r matches Ok(p) && p.0@ == job_entries(self.jobs)[0].0 && *p.1 == job_entries(
                        self.jobs,
                    )[0].1
                } else {
                    r matches Err(WorkflowError::AmbiguousJob { count, available }) && count
                        == job_entries(self.jobs).len() && views(available@) == job_ids(
                        job_entries(self.jobs),
                    )
                },
            },
    {
        match wanted {
            Some(w) => match jobs_get_key_value(&self.jobs, w) {
                Some((k, v)) => Ok((k.as_str(), v)),
                None => Err(WorkflowError::JobNotFound { wanted: w.to_owned(), available: self.job_names() }),
            },
            None => {
                let n = jobs_len(&self.jobs);
                if n == 1 {
                    let (k, v) = jobs_get_index(&self.jobs, 0).unwrap();
                    Ok((k.as_str(), v))
                } else {
                    Err(WorkflowError::AmbiguousJob { count: n, available: self.job_names() })
                }
            },
        }
    }
}

} // verus!
