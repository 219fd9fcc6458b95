use vstd::prelude::*;
use crate::highlighter::{Highlighter, highlight_all};
use crate::state::{Job, JobView, fixture_job};

verus! {

/// Markup opened before a keyword on the jobs page.
pub const HIGHLIGHT_PRE: &'static str = "<span class=\"highlight-container\"><span class=\"highlight\">";

/// Markup closed after a keyword on the jobs page.
pub const HIGHLIGHT_POST: &'static str = "</span></span>";

/// How many sample jobs the email preview shows.
pub const PREVIEW_JOBS: usize = 10;

/// `job` as the jobs page shows it: keywords marked in its text.
pub open spec fn page_job(regexes: Seq<crate::highlighter::RegexSpec>, job: JobView) -> JobView {
    JobView { text: highlight_all(regexes, job.text, HIGHLIGHT_PRE@, HIGHLIGHT_POST@), ..job }
}

/// The page shows a job with its id, author and time as they are; only
/// its text gets the keyword markup.
pub proof fn law_page_changes_only_the_text(regexes: Seq<crate::highlighter::RegexSpec>, job: JobView)
    ensures
        page_job(regexes, job).id == job.id,
        page_job(regexes, job).by == job.by,
        page_job(regexes, job).time == job.time,
        page_job(regexes, job).text == highlight_all(regexes, job.text, HIGHLIGHT_PRE@, HIGHLIGHT_POST@),
{
}

/// The jobs as the jobs page shows them, in the same order, with every
/// keyword occurrence marked.
pub fn highlight_jobs(jobs: Vec<Job>, highlighter: &Highlighter) -> (r: Vec<Job>)
    ensures
        r@.len() == jobs@.len(),
        forall|i: int| 0 <= i < jobs@.len() ==> #[trigger] r@[i]@ == page_job(highlighter@, jobs@[i]@),
        forall|i: int| 0 <= i < jobs@.len() ==> {
            &&& #[trigger] r@[i].id == jobs@[i].id
            &&& r@[i].by@ == jobs@[i].by@
            &&& r@[i].time == jobs@[i].time
            &&& r@[i].text@ == highlight_all(highlighter@, jobs@[i].text@, HIGHLIGHT_PRE@, HIGHLIGHT_POST@)
        },
{
    let mut out: Vec<Job> = Vec::new();
    for job in it: jobs
        invariant
            it.seq() == jobs@,
            out@.len() == it.index(),
            forall|i: int| 0 <= i < it.index() ==> #[trigger] out@[i]@ == page_job(highlighter@, jobs@[i]@),
    {
        out.push(job.highlight_keywords(highlighter, HIGHLIGHT_PRE, HIGHLIGHT_POST));
    }
    assert forall|i: int| 0 <= i < jobs@.len() implies {
        &&& #[trigger] out@[i].id == jobs@[i].id
        &&& out@[i].by@ == jobs@[i].by@
        &&& out@[i].time == jobs@[i].time
        &&& out@[i].text@ == highlight_all(highlighter@, jobs@[i].text@, HIGHLIGHT_PRE@, HIGHLIGHT_POST@)
    } by {
        assert(out@[i]@ == page_job(highlighter@, jobs@[i]@));
    }
    out
}

/// The jobs of the email preview: ten copies of the sample job.
pub fn preview_jobs() -> (r: Vec<Job>)
    ensures
        r@.len() == PREVIEW_JOBS,
        forall|i: int| 0 <= i < r@.len() ==> #[trigger] r@[i]@ == fixture_job(),
{
    let mut out: Vec<Job> = Vec::new();
    let mut i: usize = 0;
    while i < PREVIEW_JOBS
        invariant
            i <= PREVIEW_JOBS,
            out@.len() == i,
            forall|k: int| 0 <= k < i ==> #[trigger] out@[k]@ == fixture_job(),
        decreases PREVIEW_JOBS - i,
    {
        out.push(Job::fixture());
        i = i + 1;
    }
    out
}

} // verus!
