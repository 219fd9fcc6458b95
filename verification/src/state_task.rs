use vstd::prelude::*;
use crate::highlighter::{Highlighter, RegexSpec};
use crate::non_empty_vec::NonEmptyVec;
use crate::scraper::{Item, ItemView, item_views};
use crate::state::{Job, JobView, Post, PostView, State, absorb, is_listing, job_views, post_of_item, sorted_by_time};

verus! {

/// What the store is asked to do.
pub enum StateRequest {
    /// Record the post and the jobs of a poll.
    Update { root: Item, items: Vec<Item> },
    /// Tell the current post and jobs.
    Query,
}

/// What the store's task has to do after a request.
pub enum StateReply {
    /// Announce these jobs, never seen before.
    NewJobs(NonEmptyVec<Job>),
    /// Nothing to announce.
    Nothing,
    /// Answer the asker with the post and the jobs, oldest first.
    Snapshot(Post, Vec<Job>),
}

/// The contents of a [`StateRequest`].
pub enum RequestView {
    Update { root: ItemView, items: Seq<ItemView> },
    Query,
}

impl View for StateRequest {
    type V = RequestView;

    open spec fn view(&self) -> RequestView {
        match self {
            StateRequest::Update { root, items } => RequestView::Update { root: root@, items: item_views(items@) },
            StateRequest::Query => RequestView::Query,
        }
    }
}

/// The contents of the store: the current post and the jobs by id.
pub struct StoreView {
    pub post: PostView,
    pub jobs: Map<u32, JobView>,
}

/// What a reply stands for: jobs to announce, nothing, or the store to
/// list (oldest job first).
pub enum ReplyView {
    NewJobs(Seq<JobView>),
    Nothing,
    Snapshot(PostView, Map<u32, JobView>),
}

/// The contents of `state`.
pub open spec fn store_of(state: State) -> StoreView {
    StoreView { post: state.post_view(), jobs: state.jobs_view() }
}

/// One request applied to the store: the store afterwards and the reply.
pub open spec fn step(s: StoreView, request: RequestView, regexes: Seq<RegexSpec>) -> (StoreView, ReplyView) {
    match request {
        RequestView::Update { root, items } => {
            let (m, n) = absorb(s.jobs, items, regexes);
            (
                StoreView { post: post_of_item(root), jobs: m },
                if n.len() == 0 { ReplyView::Nothing } else { ReplyView::NewJobs(n) },
            )
        },
        RequestView::Query => (s, ReplyView::Snapshot(s.post, s.jobs)),
    }
}

/// Requests applied one after the other, in the order in which they came:
/// the store afterwards and the reply to each request.
pub open spec fn run(s: StoreView, requests: Seq<RequestView>, regexes: Seq<RegexSpec>) -> (StoreView, Seq<ReplyView>)
    decreases requests.len(),
{
    if requests.len() == 0 {
        (s, Seq::empty())
    } else {
        let (s0, replies) = run(s, requests.drop_last(), regexes);
        let (s1, reply) = step(s0, requests.last(), regexes);
        (s1, replies.push(reply))
    }
}

/// The updates among `requests`, in order.
pub open spec fn updates_of(requests: Seq<RequestView>) -> Seq<RequestView>
    decreases requests.len(),
{
    if requests.len() == 0 {
        Seq::empty()
    } else if requests.last() is Query {
        updates_of(requests.drop_last())
    } else {
        updates_of(requests.drop_last()).push(requests.last())
    }
}

/// Whether the reply `r` is what `v` stands for.
pub open spec fn answers(r: StateReply, v: ReplyView) -> bool {
    match (r, v) {
        (StateReply::NewJobs(ne), ReplyView::NewJobs(n)) => job_views(ne@) == n,
        (StateReply::Nothing, ReplyView::Nothing) => true,
        (StateReply::Snapshot(post, jobs), ReplyView::Snapshot(p, m)) => post@ == p
            && sorted_by_time(job_views(jobs@)) && is_listing(m, job_views(jobs@)),
        _ => false,
    }
}

/// Requests are answered in the order in which they came: the reply to
/// each is the one step gives on the store left by exactly the requests
/// before it.
pub proof fn law_run_in_order(s: StoreView, requests: Seq<RequestView>, regexes: Seq<RegexSpec>)
    ensures
        run(s, requests, regexes).1.len() == requests.len(),
        forall|i: int| 0 <= i < requests.len() ==> #[trigger] run(s, requests, regexes).1[i]
            == step(run(s, requests.take(i), regexes).0, requests[i], regexes).1,
    decreases requests.len(),
{
    if requests.len() > 0 {
        let init = requests.drop_last();
        law_run_in_order(s, init, regexes);
        assert forall|i: int| 0 <= i < requests.len() implies #[trigger] run(s, requests, regexes).1[i]
            == step(run(s, requests.take(i), regexes).0, requests[i], regexes).1 by {
            if i < init.len() {
                assert(requests.take(i) =~= init.take(i));
                assert(requests[i] == init[i]);
            } else {
                assert(requests.take(i) =~= init);
            }
        }
    }
}

/// Queries leave the store as it is: the store after some requests is the
/// store after their updates alone.
pub proof fn law_queries_change_nothing(s: StoreView, requests: Seq<RequestView>, regexes: Seq<RegexSpec>)
    ensures
        run(s, requests, regexes).0 == run(s, updates_of(requests), regexes).0,
    decreases requests.len(),
{
    if requests.len() > 0 {
        let init = requests.drop_last();
        law_queries_change_nothing(s, init, regexes);
        if !(requests.last() is Query) {
            assert(updates_of(requests).drop_last() =~= updates_of(init));
        }
    }
}

/// A query is answered with the store that exactly the updates before it
/// left, in the order in which they came.
pub proof fn law_query_sees_earlier_updates(s: StoreView, requests: Seq<RequestView>, regexes: Seq<RegexSpec>, i: int)
    requires
        0 <= i < requests.len(),
        requests[i] is Query,
    ensures
        ({
            let before = run(s, updates_of(requests.take(i)), regexes).0;
            run(s, requests, regexes).1[i] == ReplyView::Snapshot(before.post, before.jobs)
        }),
{
    law_run_in_order(s, requests, regexes);
    law_queries_change_nothing(s, requests.take(i), regexes);
}

/// One step of the store's task: applies `request` to `state` and says
/// what to send out.
pub fn handle(state: &mut State, request: StateRequest, highlighter: &Highlighter) -> (r: StateReply)
    ensures
        store_of(*final(state)) == step(store_of(*old(state)), request@, highlighter@).0,
        answers(r, step(store_of(*old(state)), request@, highlighter@).1),
        match request {
            StateRequest::Update { root, items } => {
                let (m, n) = absorb(old(state).jobs_view(), item_views(items@), highlighter@);
                &&& final(state).post_view() == post_of_item(root@)
                &&& final(state).jobs_view() == m
                &&& match r {
                    StateReply::NewJobs(ne) => job_views(ne@) == n,
                    StateReply::Nothing => n.len() == 0,
                    StateReply::Snapshot(..) => false,
                }
            },
            StateRequest::Query => {
                &&& final(state).post_view() == old(state).post_view()
                &&& final(state).jobs_view() == old(state).jobs_view()
                &&& match r {
                    StateReply::Snapshot(post, jobs) => post@ == old(state).post_view()
                        && sorted_by_time(job_views(jobs@))
                        && is_listing(old(state).jobs_view(), job_views(jobs@)),
                    _ => false,
                }
            },
        },
{
    match request {
        StateRequest::Update { root, items } => match state.set(root, items, highlighter) {
            Some(new_jobs) => {
                proof {
                    crate::non_empty_vec::law_never_empty(new_jobs);
                }
                StateReply::NewJobs(new_jobs)
            },
            None => StateReply::Nothing,
        },
        StateRequest::Query => {
            let (post, jobs) = state.get();
            StateReply::Snapshot(post, jobs)
        },
    }
}

} // verus!
