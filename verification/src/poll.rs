use vstd::prelude::*;
use crate::highlighter::{Highlighter, any_match};
use crate::scraper::{Item, ItemView, item_views};
use crate::state::{Job, JobView, job_of_item, job_views};

verus! {

/// The jobs of `items` that have a text mentioning one of the keywords, in
/// order.
pub open spec fn interesting_jobs(items: Seq<ItemView>, regexes: Seq<crate::highlighter::RegexSpec>) -> Seq<JobView>
    decreases items.len(),
{
    if items.len() == 0 {
        Seq::empty()
    } else {
        let rest = interesting_jobs(items.drop_last(), regexes);
        let it = items.last();
        if it.text is Some && any_match(regexes, job_of_item(it).text) {
            rest.push(job_of_item(it))
        } else {
            rest
        }
    }
}

/// The jobs of a poll, split as the poller needs them: every interesting
/// job, and those of them whose id is above `last_seen_job_id`, in order.
pub fn select_jobs(items: Vec<Item>, highlighter: &Highlighter, last_seen_job_id: u32) -> (r: (Vec<Job>, Vec<Job>))
    ensures
        job_views(r.0@) == interesting_jobs(item_views(items@), highlighter@),
        job_views(r.1@) == interesting_jobs(item_views(items@), highlighter@).filter(
            |j: JobView| j.id > last_seen_job_id,
        ),
{
    let ghost all = item_views(items@);
    let ghost keep = |j: JobView| j.id > last_seen_job_id;
    let mut every: Vec<Job> = Vec::new();
    let mut fresh: Vec<Job> = Vec::new();
    for item in it: items
        invariant
            it.seq() == items@,
            all == item_views(items@),
            keep == (|j: JobView| j.id > last_seen_job_id),
            job_views(every@) == interesting_jobs(all.take(it.index() as int), highlighter@),
            job_views(fresh@) == interesting_jobs(all.take(it.index() as int), highlighter@).filter(keep),
    {
        let ghost iv = item@;
        let ghost before = interesting_jobs(all.take(it.index() as int), highlighter@);
        proof {
            let t = all.take(it.index() + 1);
            assert(t.drop_last() =~= all.take(it.index() as int));
            assert(t.last() == iv);
        }
        match Job::try_from(item) {
            Ok(job) => {
                if highlighter.can_highlight(job.text.as_str()) {
                    let ghost jv = job@;
                    if job.id > last_seen_job_id {
                        fresh.push(job.clone());
                    }
                    every.push(job);
                    proof {
                        assert(job_views(every@) =~= before.push(jv));
                        reveal_with_fuel(Seq::<_>::filter, 1);
                        assert(before.push(jv).drop_last() =~= before);
                        assert(job_views(fresh@) =~= before.push(jv).filter(keep));
                    }
                }
            },
            Err(_) => {},
        }
    }
    proof {
        assert(all.take(items@.len() as int) =~= all);
    }
    (every, fresh)
}

} // verus!

verus! {

/// Whether the job of `items[k]` counts as interesting: the item has a
/// text, and it mentions one of `regexes`.
pub open spec fn interesting_at(items: Seq<ItemView>, regexes: Seq<crate::highlighter::RegexSpec>, k: int) -> bool {
    items[k].text is Some && any_match(regexes, job_of_item(items[k]).text)
}

/// The interesting jobs are, in order and whole, the jobs of exactly the
/// items that have a text mentioning a keyword. The returned `ks` says
/// which item each job stands for.
pub proof fn law_interesting_jobs_are_the_items_jobs(
    items: Seq<ItemView>,
    regexes: Seq<crate::highlighter::RegexSpec>,
) -> (ks: Seq<int>)
    ensures
        ks.len() == interesting_jobs(items, regexes).len(),
        forall|i: int| 0 <= i < ks.len() ==> 0 <= #[trigger] ks[i] < items.len()
            && interesting_at(items, regexes, ks[i])
            && interesting_jobs(items, regexes)[i] == job_of_item(items[ks[i]]),
        forall|i: int, j: int| 0 <= i < j < ks.len() ==> #[trigger] ks[i] < #[trigger] ks[j],
        forall|k: int| 0 <= k < items.len() && interesting_at(items, regexes, k)
            ==> exists|i: int| 0 <= i < ks.len() && #[trigger] ks[i] == k,
    decreases items.len(),
{
    if items.len() == 0 {
        Seq::empty()
    } else {
        let init = items.drop_last();
        let last = (items.len() - 1) as int;
        let ks0 = law_interesting_jobs_are_the_items_jobs(init, regexes);
        assert(items.last() == items[last]);
        assert forall|i: int| 0 <= i < init.len() implies #[trigger] init[i] == items[i] by {}
        assert forall|i: int| 0 <= i < init.len() implies #[trigger] interesting_at(init, regexes, i) == interesting_at(items, regexes, i) by {
            assert(init[i] == items[i]);
        }
        let ks = if interesting_at(items, regexes, last) { ks0.push(last) } else { ks0 };
        assert forall|i: int| 0 <= i < ks.len() implies 0 <= #[trigger] ks[i] < items.len()
            && interesting_at(items, regexes, ks[i])
            && interesting_jobs(items, regexes)[i] == job_of_item(items[ks[i]]) by {
            if i < ks0.len() {
                assert(ks[i] == ks0[i]);
                assert(init[ks0[i]] == items[ks0[i]]);
            }
        }
        assert forall|k: int| 0 <= k < items.len() && interesting_at(items, regexes, k)
            implies exists|i: int| 0 <= i < ks.len() && #[trigger] ks[i] == k by {
            if k == last {
                assert(ks[ks.len() - 1] == k);
            } else {
                assert(interesting_at(init, regexes, k));
                let i = choose|i: int| 0 <= i < ks0.len() && #[trigger] ks0[i] == k;
                assert(ks[i] == k);
            }
        }
        ks
    }
}

} // verus!
