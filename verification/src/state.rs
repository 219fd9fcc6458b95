use vstd::prelude::*;
use vstd::string::*;
use std::collections::HashMap;
use vstd::std_specs::iter::IteratorSpec;
use crate::highlighter::{Highlighter, RegexSpec, any_match, highlight_all};
use crate::non_empty_vec::NonEmptyVec;
use crate::order::{lemma_insert_keeps_sorted, sorted_by_key};
use crate::scraper::{Item, ItemView, item_views};

verus! {

broadcast use vstd::std_specs::hash::group_hash_axioms, vstd::seq_lib::group_to_multiset_ensures;

/// The "Who is hiring?" thread that the jobs were posted under.
pub struct Post {
    pub id: u32,
    pub title: String,
}

/// The contents of a [`Post`].
pub struct PostView {
    pub id: u32,
    pub title: Seq<char>,
}

impl View for Post {
    type V = PostView;

    open spec fn view(&self) -> PostView {
        PostView { id: self.id, title: self.title@ }
    }
}

/// A job offer: a top-level comment of the thread.
pub struct Job {
    pub id: u32,
    pub text: String,
    pub by: String,
    pub time: i64,
}

/// The contents of a [`Job`].
pub struct JobView {
    pub id: u32,
    pub text: Seq<char>,
    pub by: Seq<char>,
    pub time: i64,
}

impl View for Job {
    type V = JobView;

    open spec fn view(&self) -> JobView {
        JobView { id: self.id, text: self.text@, by: self.by@, time: self.time }
    }
}

/// Title given to a post that has none.
pub open spec fn unknown_title() -> Seq<char> {
    seq!['?', '?', '?']
}

/// The post that an item stands for.
pub open spec fn post_of_item(item: ItemView) -> PostView {
    PostView {
        id: item.id,
        title: match item.title {
            Some(t) => t,
            None => unknown_title(),
        },
    }
}

/// The job that an item stands for: missing text or author become empty.
pub open spec fn job_of_item(item: ItemView) -> JobView {
    JobView {
        id: item.id,
        text: match item.text {
            Some(t) => t,
            None => Seq::empty(),
        },
        by: match item.by {
            Some(b) => b,
            None => Seq::empty(),
        },
        time: item.time,
    }
}

/// The job of an item keeps the item's id, time, text and author; a
/// missing text or author becomes empty.
pub proof fn law_job_of_item_fields(item: ItemView)
    ensures
        job_of_item(item).id == item.id,
        job_of_item(item).time == item.time,
        item.text matches Some(t) ==> job_of_item(item).text == t,
        item.text is None ==> job_of_item(item).text.len() == 0,
        item.by matches Some(b) ==> job_of_item(item).by == b,
        item.by is None ==> job_of_item(item).by.len() == 0,
{
}

/// The post of an item keeps the item's id and title; a missing title
/// becomes "???".
pub proof fn law_post_of_item_fields(item: ItemView)
    ensures
        post_of_item(item).id == item.id,
        item.title matches Some(t) ==> post_of_item(item).title == t,
        item.title is None ==> post_of_item(item).title == seq!['?', '?', '?'],
{
}

/// `s` repeated `n` times.
pub open spec fn repeat(s: Seq<char>, n: nat) -> Seq<char>
    decreases n,
{
    if n == 0 {
        Seq::empty()
    } else {
        repeat(s, (n - 1) as nat) + s
    }
}

fn unknown_title_string() -> (r: String)
    ensures
        r@ == unknown_title(),
{
    let s = String::from_str("???");
    proof {
        reveal_strlit("???");
    }
    assert(s@ =~= unknown_title());
    s
}

fn clone_string(s: &String) -> (r: String)
    ensures
        r@ == s@,
{
    s.clone()
}

/// `s` repeated `n` times, as `str::repeat` gives it.
pub fn repeat_str(s: &str, n: usize) -> (r: String)
    ensures
        r@ == repeat(s@, n as nat),
{
    let mut out = String::new();
    let mut i: usize = 0;
    while i < n
        invariant
            i <= n,
            out@ == repeat(s@, i as nat),
        decreases n - i,
    {
        out.append(s);
        i = i + 1;
    }
    out
}

impl Clone for Job {
    fn clone(&self) -> (r: Self)
        ensures
            r@ == self@,
    {
        Job { id: self.id, text: clone_string(&self.text), by: clone_string(&self.by), time: self.time }
    }
}

impl Clone for Post {
    fn clone(&self) -> (r: Self)
        ensures
            r@ == self@,
    {
        Post { id: self.id, title: clone_string(&self.title) }
    }
}

impl Default for Post {
    /// The post shown before the first poll: id 0, title "???".
    fn default() -> (r: Self)
        ensures
            r@ == (PostView { id: 0, title: unknown_title() }),
    {
        Post { id: 0, title: unknown_title_string() }
    }
}

impl Post {
    /// The post that `item` stands for; an item without title is refused.
    pub fn try_from(item: Item) -> (r: Result<Post, ItemError>)
        ensures
            match r {
                Ok(p) => item@.title is Some && p@ == post_of_item(item@),
                Err(e) => item@.title is None && e == ItemError::NoTitle,
            },
    {
        match item.title {
            None => Err(ItemError::NoTitle),
            Some(title) => Ok(Post { id: item.id, title }),
        }
    }

    /// The post that `item` stands for; a missing title becomes "???".
    pub fn from(item: Item) -> (r: Post)
        ensures
            r@ == post_of_item(item@),
    {
        let title = match item.title {
            Some(t) => t,
            None => unknown_title_string(),
        };
        Post { id: item.id, title }
    }

    /// A sample post, for previews.
    pub fn fixture() -> (r: Post)
        ensures
            r.id == 12345,
            r.title@ == "Who's hiring now"@,
    {
        Post { id: 12345, title: String::from_str("Who's hiring now") }
    }
}

/// The sample job text: a line of filler that mentions Rust three times.
pub open spec fn lorem_ipsum_with_rust() -> Seq<char> {
    "Lorem ipsum dolor sit amet, consectetur adipiscing Rust elit, sed RUST do eiusmod tempor incididunt ut labore et rust dolore magna aliqua."@
}

/// The sample job shown in previews.
pub open spec fn fixture_job() -> JobView {
    JobView { id: 12345, text: repeat(lorem_ipsum_with_rust(), 15), by: "Username"@, time: 1298888434 }
}

/// Why an item cannot stand for a job or a post.
#[derive(Debug, PartialEq, Eq)]
pub enum ItemError {
    /// The item has no text.
    NoText,
    /// The item has no title.
    NoTitle,
}

impl Job {
    /// The job that `item` stands for; an item without text is refused,
    /// a missing author becomes empty.
    pub fn try_from(item: Item) -> (r: Result<Job, ItemError>)
        ensures
            match r {
                Ok(j) => item@.text is Some && j@ == job_of_item(item@),
                Err(e) => item@.text is None && e == ItemError::NoText,
            },
    {
        match item.text {
            None => Err(ItemError::NoText),
            Some(text) => {
                let by = match item.by {
                    Some(b) => b,
                    None => String::new(),
                };
                Ok(Job { id: item.id, text, by, time: item.time })
            },
        }
    }

    /// The job that `item` stands for; missing text or author become empty.
    pub fn from(item: Item) -> (r: Job)
        ensures
            r@ == job_of_item(item@),
    {
        let text = match item.text {
            Some(t) => t,
            None => String::new(),
        };
        let by = match item.by {
            Some(b) => b,
            None => String::new(),
        };
        Job { id: item.id, text, by, time: item.time }
    }

    /// The job with every keyword occurrence in its text surrounded by
    /// `pre` and `post`.
    pub fn highlight_keywords(self, highlighter: &Highlighter, pre: &str, post: &str) -> (r: Job)
        ensures
            r@ == (JobView { text: highlight_all(highlighter@, self@.text, pre@, post@), ..self@ }),
            r.id == self.id,
            r.by@ == self.by@,
            r.time == self.time,
    {
        let mut job = self;
        highlighter.highlight(&mut job.text, pre, post);
        job
    }

    /// A sample job, for previews: its text repeats a filler line 15 times.
    pub fn fixture() -> (r: Job)
        ensures
            r@ == fixture_job(),
    {
        let text = repeat_str(
            "Lorem ipsum dolor sit amet, consectetur adipiscing Rust elit, sed RUST do eiusmod tempor incididunt ut labore et rust dolore magna aliqua.",
            15,
        );
        Job { id: 12345, text, by: String::from_str("Username"), time: 1298888434 }
    }
}

/// Absorbing `items`, in order, into the store `m`, keeping the jobs whose
/// text matches one of `regexes`: the new store (a later item replaces an
/// earlier one with the same id) and the jobs whose ids the store did not
/// hold yet, in the order in which they came.
pub open spec fn absorb(m: Map<u32, JobView>, items: Seq<ItemView>, regexes: Seq<RegexSpec>) -> (Map<u32, JobView>, Seq<JobView>)
    decreases items.len(),
{
    if items.len() == 0 {
        (m, Seq::empty())
    } else {
        let (m0, n0) = absorb(m, items.drop_last(), regexes);
        let j = job_of_item(items.last());
        if any_match(regexes, j.text) {
            (m0.insert(j.id, j), if m0.contains_key(j.id) { n0 } else { n0.push(j) })
        } else {
            (m0, n0)
        }
    }
}

/// The time of a job, as the key that listings are ordered by.
pub open spec fn job_time() -> spec_fn(JobView) -> int {
    |j: JobView| j.time as int
}

/// Whether `s` is in ascending order of time.
pub open spec fn sorted_by_time(s: Seq<JobView>) -> bool {
    sorted_by_key(s, job_time())
}

/// Whether `s` lists every job of `m` exactly once (each job stored under its id).
pub open spec fn is_listing(m: Map<u32, JobView>, s: Seq<JobView>) -> bool {
    &&& s.len() == m.dom().len()
    &&& forall|i: int| 0 <= i < s.len() ==> m.contains_key(#[trigger] s[i].id) && m[s[i].id] == s[i]
    &&& forall|i: int, j: int| 0 <= i < s.len() && 0 <= j < s.len() && i != j ==> #[trigger] s[i].id != #[trigger] s[j].id
    &&& forall|k: u32| m.contains_key(k) ==> exists|i: int| 0 <= i < s.len() && #[trigger] s[i].id == k
}

/// The views of the jobs of `v`.
pub open spec fn job_views(v: Seq<Job>) -> Seq<JobView> {
    v.map_values(|j: Job| j@)
}

/// The jobs of a store, by id.
spec fn store_view(jobs: HashMap<u32, Job>) -> Map<u32, JobView> {
    jobs@.map_values(|j: Job| j@)
}

/// Whether every job of `jobs` is stored under its own id.
spec fn ids_match_keys(jobs: HashMap<u32, Job>) -> bool {
    forall|k: u32| #[trigger] jobs@.contains_key(k) ==> jobs@[k].id == k
}

/// The jobs seen so far, and the post they were seen under.
pub struct State {
    post: Post,
    jobs: HashMap<u32, Job>,
}

impl State {
    /// The post of the latest poll.
    pub closed spec fn post_view(&self) -> PostView {
        self.post@
    }

    /// The jobs seen so far, by id.
    pub closed spec fn jobs_view(&self) -> Map<u32, JobView> {
        store_view(self.jobs)
    }

    /// Every job is stored under its own id.
    #[verifier::type_invariant]
    spec fn wf(&self) -> bool {
        ids_match_keys(self.jobs)
    }

    /// An empty store under the default post.
    pub fn new() -> (r: State)
        ensures
            r.post_view() == (PostView { id: 0, title: unknown_title() }),
            r.jobs_view() == Map::<u32, JobView>::empty(),
    {
        let r = State { post: Post::default(), jobs: HashMap::new() };
        assert(r.jobs_view() =~= Map::<u32, JobView>::empty());
        r
    }

    /// Records the post and the jobs of a poll. Only jobs whose text
    /// mentions a keyword are kept; a job replaces the stored one with the
    /// same id. Gives the kept jobs whose ids were not stored yet, in the
    /// order in which they came, or `None` when there is none.
    pub fn set(&mut self, root: Item, items: Vec<Item>, highlighter: &Highlighter) -> (r: Option<NonEmptyVec<Job>>)
        ensures
            final(self).post_view() == post_of_item(root@),
            final(self).jobs_view() == absorb(old(self).jobs_view(), item_views(items@), highlighter@).0,
            match r {
                None => absorb(old(self).jobs_view(), item_views(items@), highlighter@).1.len() == 0,
                Some(ne) => job_views(ne@) == absorb(old(self).jobs_view(), item_views(items@), highlighter@).1,
            },
    {
        proof {
            use_type_invariant(&*self);
        }
        let ghost m0 = self.jobs_view();
        let ghost all = item_views(items@);
        let mut jobs: HashMap<u32, Job> = HashMap::new();
        std::mem::swap(&mut jobs, &mut self.jobs);
        self.post = Post::from(root);
        let mut new_jobs: Vec<Job> = Vec::new();
        for item in it: items
            invariant
                ids_match_keys(jobs),
                it.seq() == items@,
                all == item_views(items@),
                (store_view(jobs), job_views(new_jobs@)) == absorb(m0, all.take(it.index() as int), highlighter@),
        {
            let ghost iv = item@;
            let ghost done = all.take(it.index() as int);
            let job = Job::from(item);
            proof {
                assert(all.take(it.index() + 1).drop_last() =~= done);
                assert(all.take(it.index() + 1).last() == iv);
            }
            if highlighter.can_highlight(job.text.as_str()) {
                let ghost before = store_view(jobs);
                if !jobs.contains_key(&job.id) {
                    new_jobs.push(job.clone());
                }
                let id = job.id;
                let ghost jv = job@;
                jobs.insert(id, job);
                proof {
                    assert(store_view(jobs) =~= before.insert(id, jv));
                }
            }
            proof {
                assert(job_views(new_jobs@) =~= absorb(m0, all.take(it.index() + 1), highlighter@).1);
            }
        }
        proof {
            assert(all.take(items@.len() as int) =~= all);
        }
        self.jobs = jobs;
        NonEmptyVec::try_new(new_jobs)
    }

    /// The current post, and every stored job once, oldest first.
    pub fn get(&self) -> (r: (Post, Vec<Job>))
        ensures
            r.0@ == self.post_view(),
            sorted_by_time(job_views(r.1@)),
            is_listing(self.jobs_view(), job_views(r.1@)),
    {
        proof {
            use_type_invariant(self);
        }
        let ghost m = self.jobs_view();
        let mut out: Vec<Job> = Vec::new();
        let ghost mut seen: Seq<JobView> = Seq::empty();
        let pairs = self.jobs.iter();
        let ghost full = pairs.remaining();
        assert(full.no_duplicates());
        for pair in it: pairs
            invariant
                self.wf(),
                m == self.jobs_view(),
                it.seq() == full,
                full == vstd::std_specs::hash::spec_hash_map_iter(&self.jobs).remaining(),
                full.no_duplicates(),
                seen == it.seq().take(it.index() as int).map_values(|p: (&u32, &Job)| (*p.1)@),
                sorted_by_time(job_views(out@)),
                job_views(out@).to_multiset() == seen.to_multiset(),
        {
            let job = pair.1.clone();
            let mut pos: usize = 0;
            while pos < out.len() && out[pos].time <= job.time
                invariant
                    pos <= out.len(),
                    forall|a: int| 0 <= a < pos ==> #[trigger] out@[a].time <= job.time,
                decreases out.len() - pos,
            {
                pos = pos + 1;
            }
            let ghost before = job_views(out@);
            let ghost jv = job@;
            proof {
                lemma_insert_keeps_sorted(before, job_time(), pos as int, jv);
            }
            out.insert(pos, job);
            proof {
                assert(job_views(out@) =~= before.insert(pos as int, jv));
                assert(it.seq().take(it.index() + 1).map_values(|p: (&u32, &Job)| (*p.1)@)
                    =~= seen.push(job@));
                seen = seen.push(job@);
            }
        }
        proof {
            assert(seen =~= full.map_values(|p: (&u32, &Job)| (*p.1)@));
            self.lemma_iteration_is_listing();
            lemma_permutation_of_listing(m, seen, job_views(out@));
        }
        (self.post.clone(), out)
    }

    /// Walking the store lists every job once.
    proof fn lemma_iteration_is_listing(&self)
        requires
            self.wf(),
            vstd::std_specs::hash::spec_hash_map_iter(&self.jobs).remaining().no_duplicates(),
        ensures
            is_listing(
                self.jobs_view(),
                vstd::std_specs::hash::spec_hash_map_iter(&self.jobs).remaining().map_values(
                    |p: (&u32, &Job)| (*p.1)@,
                ),
            ),
    {
        let v = vstd::std_specs::hash::spec_hash_map_iter(&self.jobs).remaining();
        let l = v.map_values(|p: (&u32, &Job)| (*p.1)@);
        let jm = self.jobs@;
        let m = self.jobs_view();
        assert(m.dom() =~= jm.dom());
        assert forall|i: int| 0 <= i < l.len() implies m.contains_key(#[trigger] l[i].id) && m[l[i].id] == l[i] by {
            assert(jm.contains_key(*v[i].0));
            assert(jm[*v[i].0] == *v[i].1);
        }
        assert forall|i: int, j: int| 0 <= i < l.len() && 0 <= j < l.len() && i != j implies #[trigger] l[i].id != #[trigger] l[j].id by {
            assert(jm.contains_key(*v[i].0));
            assert(jm.contains_key(*v[j].0));
            if l[i].id == l[j].id {
                assert(v[i] == v[j]);
            }
        }
        assert forall|k: u32| m.contains_key(k) implies exists|i: int| 0 <= i < l.len() && #[trigger] l[i].id == k by {
            assert(jm.contains_key(k));
            assert(v.contains((&k, &jm[k])));
            let i = choose|i: int| 0 <= i < v.len() && v[i] == (&k, &jm[k]);
            assert(l[i].id == k);
        }
    }
}

/// Reordering a listing of `m` gives a listing of `m`.
pub proof fn lemma_permutation_of_listing(m: Map<u32, JobView>, l: Seq<JobView>, s: Seq<JobView>)
    requires
        is_listing(m, l),
        s.to_multiset() == l.to_multiset(),
    ensures
        is_listing(m, s),
{
    vstd::seq_lib::to_multiset_len(s);
    vstd::seq_lib::to_multiset_len(l);
    assert forall|i: int| 0 <= i < s.len() implies m.contains_key(#[trigger] s[i].id) && m[s[i].id] == s[i] by {
        assert(s.contains(s[i]));
        assert(l.to_multiset().count(s[i]) > 0);
        assert(l.contains(s[i]));
        let a = choose|a: int| 0 <= a < l.len() && l[a] == s[i];
        assert(m.contains_key(l[a].id));
    }
    assert(l.no_duplicates()) by {
        assert forall|a: int, b: int| 0 <= a < l.len() && 0 <= b < l.len() && a != b implies l[a] != l[b] by {
            assert(l[a].id != l[b].id);
        }
    }
    l.lemma_multiset_has_no_duplicates();
    s.lemma_multiset_has_no_duplicates_conv();
    assert forall|i: int, j: int| 0 <= i < s.len() && 0 <= j < s.len() && i != j implies #[trigger] s[i].id != #[trigger] s[j].id by {
        assert(m.contains_key(s[i].id) && m[s[i].id] == s[i]);
        assert(m.contains_key(s[j].id) && m[s[j].id] == s[j]);
    }
    assert forall|k: u32| m.contains_key(k) implies exists|i: int| 0 <= i < s.len() && #[trigger] s[i].id == k by {
        let a = choose|a: int| 0 <= a < l.len() && #[trigger] l[a].id == k;
        assert(l.contains(l[a]));
        assert(s.to_multiset().count(l[a]) > 0);
        assert(s.contains(l[a]));
        let i = choose|i: int| 0 <= i < s.len() && s[i] == l[a];
        assert(s[i].id == k);
    }
}


/// Whether the job of `items[i]` mentions one of `regexes`.
pub open spec fn kept_at(items: Seq<ItemView>, regexes: Seq<RegexSpec>, i: int) -> bool {
    any_match(regexes, job_of_item(items[i]).text)
}

/// The ids of the jobs of `items` that mention one of `regexes`.
pub open spec fn kept_ids(items: Seq<ItemView>, regexes: Seq<RegexSpec>) -> Set<u32> {
    Set::new(|id: u32| exists|i: int| 0 <= i < items.len() && kept_at(items, regexes, i) && #[trigger] job_of_item(items[i]).id == id)
}

/// After absorbing a batch, the store holds the ids it held before and the
/// ids of the kept jobs, and nothing else; an id that no kept job has keeps
/// its job, and an id that kept jobs have holds the last of them.
pub proof fn law_absorb_store(m: Map<u32, JobView>, items: Seq<ItemView>, regexes: Seq<RegexSpec>)
    ensures
        absorb(m, items, regexes).0.dom() == m.dom().union(kept_ids(items, regexes)),
        forall|k: u32| m.contains_key(k) && !kept_ids(items, regexes).contains(k)
            ==> #[trigger] absorb(m, items, regexes).0[k] == m[k],
        forall|k: u32| #[trigger] kept_ids(items, regexes).contains(k) ==> exists|i: int|
            0 <= i < items.len() && kept_at(items, regexes, i) && job_of_item(items[i]).id == k
            && absorb(m, items, regexes).0[k] == job_of_item(items[i])
            && forall|i2: int| i < i2 < items.len() && kept_at(items, regexes, i2) ==> job_of_item(#[trigger] items[i2]).id != k,
    decreases items.len(),
{
    if items.len() == 0 {
        assert(kept_ids(items, regexes) =~= Set::empty());
        assert(m.dom().union(Set::empty()) =~= m.dom());
    } else {
        let init = items.drop_last();
        let last = (items.len() - 1) as int;
        law_absorb_store(m, init, regexes);
        let (m0, n0) = absorb(m, init, regexes);
        let j = job_of_item(items[last]);
        assert(items.last() == items[last]);
        assert forall|i: int| 0 <= i < init.len() implies #[trigger] init[i] == items[i] by {}
        if kept_at(items, regexes, last) {
            assert(kept_ids(items, regexes) =~= kept_ids(init, regexes).insert(j.id)) by {
                assert forall|id: u32| #[trigger] kept_ids(items, regexes).contains(id) implies kept_ids(init, regexes).insert(j.id).contains(id) by {
                    let i = choose|i: int| 0 <= i < items.len() && kept_at(items, regexes, i) && #[trigger] job_of_item(items[i]).id == id;
                    if i < last {
                        assert(kept_at(init, regexes, i) && job_of_item(init[i]).id == id);
                    }
                }
                assert forall|id: u32| #[trigger] kept_ids(init, regexes).contains(id) implies kept_ids(items, regexes).contains(id) by {
                    let i = choose|i: int| 0 <= i < init.len() && kept_at(init, regexes, i) && #[trigger] job_of_item(init[i]).id == id;
                    assert(kept_at(items, regexes, i) && job_of_item(items[i]).id == id);
                }
                assert(kept_at(items, regexes, last) && job_of_item(items[last]).id == j.id);
            }
            assert(absorb(m, items, regexes).0 == m0.insert(j.id, j));
            assert(absorb(m, items, regexes).0.dom() =~= m.dom().union(kept_ids(items, regexes)));
            assert forall|k: u32| #[trigger] kept_ids(items, regexes).contains(k) implies exists|i: int|
                0 <= i < items.len() && kept_at(items, regexes, i) && job_of_item(items[i]).id == k
                && absorb(m, items, regexes).0[k] == job_of_item(items[i])
                && forall|i2: int| i < i2 < items.len() && kept_at(items, regexes, i2) ==> job_of_item(#[trigger] items[i2]).id != k by {
                if k == j.id {
                    assert(kept_at(items, regexes, last) && job_of_item(items[last]).id == k);
                } else {
                    assert(kept_ids(init, regexes).contains(k));
                    let i = choose|i: int|
                        0 <= i < init.len() && kept_at(init, regexes, i) && job_of_item(init[i]).id == k
                        && absorb(m, init, regexes).0[k] == job_of_item(init[i])
                        && forall|i2: int| i < i2 < init.len() && kept_at(init, regexes, i2) ==> job_of_item(#[trigger] init[i2]).id != k;
                    assert(kept_at(items, regexes, i) && job_of_item(items[i]).id == k);
                    assert forall|i2: int| i < i2 < items.len() && kept_at(items, regexes, i2) implies job_of_item(#[trigger] items[i2]).id != k by {
                        if i2 < last {
                            assert(kept_at(init, regexes, i2));
                        }
                    }
                }
            }
        } else {
            assert(kept_ids(items, regexes) =~= kept_ids(init, regexes)) by {
                assert forall|id: u32| #[trigger] kept_ids(items, regexes).contains(id) implies kept_ids(init, regexes).contains(id) by {
                    let i = choose|i: int| 0 <= i < items.len() && kept_at(items, regexes, i) && #[trigger] job_of_item(items[i]).id == id;
                    assert(i != last);
                    assert(kept_at(init, regexes, i) && job_of_item(init[i]).id == id);
                }
                assert forall|id: u32| #[trigger] kept_ids(init, regexes).contains(id) implies kept_ids(items, regexes).contains(id) by {
                    let i = choose|i: int| 0 <= i < init.len() && kept_at(init, regexes, i) && #[trigger] job_of_item(init[i]).id == id;
                    assert(kept_at(items, regexes, i) && job_of_item(items[i]).id == id);
                }
            }
            assert forall|k: u32| #[trigger] kept_ids(items, regexes).contains(k) implies exists|i: int|
                0 <= i < items.len() && kept_at(items, regexes, i) && job_of_item(items[i]).id == k
                && absorb(m, items, regexes).0[k] == job_of_item(items[i])
                && forall|i2: int| i < i2 < items.len() && kept_at(items, regexes, i2) ==> job_of_item(#[trigger] items[i2]).id != k by {
                let i = choose|i: int|
                    0 <= i < init.len() && kept_at(init, regexes, i) && job_of_item(init[i]).id == k
                    && absorb(m, init, regexes).0[k] == job_of_item(init[i])
                    && forall|i2: int| i < i2 < init.len() && kept_at(init, regexes, i2) ==> job_of_item(#[trigger] init[i2]).id != k;
                assert(kept_at(items, regexes, i) && job_of_item(items[i]).id == k);
                assert forall|i2: int| i < i2 < items.len() && kept_at(items, regexes, i2) implies job_of_item(#[trigger] items[i2]).id != k by {
                    if i2 < last {
                        assert(kept_at(init, regexes, i2));
                    }
                }
            }
        }
    }
}


/// The jobs that absorbing a batch reports as new are exactly the kept jobs
/// whose ids the store did not hold before, each id once; each of them is
/// stored afterwards.
pub proof fn law_absorb_reports_new(m: Map<u32, JobView>, items: Seq<ItemView>, regexes: Seq<RegexSpec>)
    ensures
        ({
            let (m1, n) = absorb(m, items, regexes);
            &&& forall|i: int| 0 <= i < n.len() ==> !m.contains_key(#[trigger] n[i].id)
                && kept_ids(items, regexes).contains(n[i].id) && m1.contains_key(n[i].id)
            &&& forall|i: int, j: int| 0 <= i < n.len() && 0 <= j < n.len() && i != j ==> #[trigger] n[i].id != #[trigger] n[j].id
            &&& forall|k: u32| #[trigger] kept_ids(items, regexes).contains(k) && !m.contains_key(k)
                ==> exists|i: int| 0 <= i < n.len() && n[i].id == k
        }),
    decreases items.len(),
{
    law_absorb_store(m, items, regexes);
    if items.len() > 0 {
        let init = items.drop_last();
        let last = (items.len() - 1) as int;
        law_absorb_reports_new(m, init, regexes);
        law_absorb_store(m, init, regexes);
        let (m0, n0) = absorb(m, init, regexes);
        let (m1, n) = absorb(m, items, regexes);
        let j = job_of_item(items[last]);
        assert(items.last() == items[last]);
        assert forall|i: int| 0 <= i < init.len() implies #[trigger] init[i] == items[i] by {}
        assert forall|id: u32| #[trigger] kept_ids(init, regexes).contains(id) implies kept_ids(items, regexes).contains(id) by {
            let i = choose|i: int| 0 <= i < init.len() && kept_at(init, regexes, i) && #[trigger] job_of_item(init[i]).id == id;
            assert(kept_at(items, regexes, i) && job_of_item(items[i]).id == id);
        }
        if kept_at(items, regexes, last) {
            assert(kept_ids(items, regexes).contains(j.id)) by {
                assert(kept_at(items, regexes, last) && job_of_item(items[last]).id == j.id);
            }
            assert forall|k: u32| #[trigger] kept_ids(items, regexes).contains(k) && !m.contains_key(k)
                implies exists|i: int| 0 <= i < n.len() && n[i].id == k by {
                if k == j.id && !m0.contains_key(j.id) {
                    assert(n[n.len() - 1].id == k);
                } else {
                    if k == j.id {
                        assert(m0.dom().contains(k));
                        assert(kept_ids(init, regexes).contains(k));
                    } else {
                        let i = choose|i: int| 0 <= i < items.len() && kept_at(items, regexes, i) && #[trigger] job_of_item(items[i]).id == k;
                        assert(i != last);
                        assert(kept_at(init, regexes, i) && job_of_item(init[i]).id == k);
                        assert(kept_ids(init, regexes).contains(k));
                    }
                    let i = choose|i: int| 0 <= i < n0.len() && n0[i].id == k;
                    assert(n[i] == n0[i]);
                }
            }
            if !m0.contains_key(j.id) {
                assert forall|i: int, i2: int| 0 <= i < n.len() && 0 <= i2 < n.len() && i != i2 implies #[trigger] n[i].id != #[trigger] n[i2].id by {
                    if i < n0.len() && i2 < n0.len() {
                    } else if i < n0.len() {
                        assert(m0.contains_key(n0[i].id));
                    } else {
                        assert(m0.contains_key(n0[i2].id));
                    }
                }
            }
        } else {
            assert forall|k: u32| #[trigger] kept_ids(items, regexes).contains(k) && !m.contains_key(k)
                implies exists|i: int| 0 <= i < n.len() && n[i].id == k by {
                let i = choose|i: int| 0 <= i < items.len() && kept_at(items, regexes, i) && #[trigger] job_of_item(items[i]).id == k;
                assert(i != last);
                assert(kept_at(init, regexes, i) && job_of_item(init[i]).id == k);
                assert(kept_ids(init, regexes).contains(k));
            }
        }
    }
}

/// A store that already holds every kept job's id reports nothing new.
pub proof fn lemma_absorb_known(m: Map<u32, JobView>, items: Seq<ItemView>, regexes: Seq<RegexSpec>)
    requires
        kept_ids(items, regexes).subset_of(m.dom()),
    ensures
        absorb(m, items, regexes).1.len() == 0,
    decreases items.len(),
{
    if items.len() > 0 {
        let init = items.drop_last();
        let last = (items.len() - 1) as int;
        assert forall|i: int| 0 <= i < init.len() implies #[trigger] init[i] == items[i] by {}
        assert forall|id: u32| #[trigger] kept_ids(init, regexes).contains(id) implies kept_ids(items, regexes).contains(id) by {
            let i = choose|i: int| 0 <= i < init.len() && kept_at(init, regexes, i) && #[trigger] job_of_item(init[i]).id == id;
            assert(kept_at(items, regexes, i) && job_of_item(items[i]).id == id);
        }
        lemma_absorb_known(m, init, regexes);
        law_absorb_store(m, init, regexes);
        assert(items.last() == items[last]);
        if kept_at(items, regexes, last) {
            assert(kept_at(items, regexes, last) && job_of_item(items[last]).id == job_of_item(items[last]).id);
            assert(kept_ids(items, regexes).contains(job_of_item(items[last]).id));
        }
    }
}

/// Absorbing the same batch twice reports nothing the second time: a job
/// is announced at most once.
pub proof fn law_absorb_twice_reports_nothing(m: Map<u32, JobView>, items: Seq<ItemView>, regexes: Seq<RegexSpec>)
    ensures
        absorb(absorb(m, items, regexes).0, items, regexes).1.len() == 0,
{
    law_absorb_store(m, items, regexes);
    lemma_absorb_known(absorb(m, items, regexes).0, items, regexes);
}


/// Whether some job of `listing` has id `id`.
pub open spec fn lists_id(listing: Seq<JobView>, id: u32) -> bool {
    exists|k: int| 0 <= k < listing.len() && listing[k].id == id
}

/// Every job that absorbing a batch reports as new is listed by a listing
/// of the store that results.
pub proof fn law_reported_jobs_are_listed(
    m: Map<u32, JobView>,
    items: Seq<ItemView>,
    regexes: Seq<RegexSpec>,
    listing: Seq<JobView>,
)
    requires
        is_listing(absorb(m, items, regexes).0, listing),
    ensures
        forall|i: int| 0 <= i < absorb(m, items, regexes).1.len()
            ==> lists_id(listing, #[trigger] absorb(m, items, regexes).1[i].id),
{
    law_absorb_reports_new(m, items, regexes);
    let m1 = absorb(m, items, regexes).0;
    let n = absorb(m, items, regexes).1;
    assert forall|i: int| 0 <= i < n.len() implies lists_id(listing, #[trigger] n[i].id) by {
        assert(m1.contains_key(n[i].id));
        let k = choose|k: int| 0 <= k < listing.len() && #[trigger] listing[k].id == n[i].id;
    }
}

} // verus!

verus! {

/// Each job that absorbing a batch reports as new is, whole, the job of the
/// first kept item with its id, an id the store did not hold; the reports
/// come in the order of their items. The returned `ks` says which item
/// each report stands for.
pub proof fn law_absorb_reports_first_kept(m: Map<u32, JobView>, items: Seq<ItemView>, regexes: Seq<RegexSpec>) -> (ks: Seq<int>)
    ensures
        ks.len() == absorb(m, items, regexes).1.len(),
        forall|i: int| 0 <= i < ks.len() ==> {
            &&& 0 <= #[trigger] ks[i] < items.len()
            &&& kept_at(items, regexes, ks[i])
            &&& absorb(m, items, regexes).1[i] == job_of_item(items[ks[i]])
            &&& !m.contains_key(job_of_item(items[ks[i]]).id)
            &&& forall|k: int| 0 <= k < ks[i] && kept_at(items, regexes, k)
                ==> job_of_item(#[trigger] items[k]).id != job_of_item(items[ks[i]]).id
        },
        forall|i: int, j: int| 0 <= i < j < ks.len() ==> #[trigger] ks[i] < #[trigger] ks[j],
    decreases items.len(),
{
    if items.len() == 0 {
        Seq::empty()
    } else {
        let init = items.drop_last();
        let last = (items.len() - 1) as int;
        let ks0 = law_absorb_reports_first_kept(m, init, regexes);
        law_absorb_store(m, init, regexes);
        let (m0, n0) = absorb(m, init, regexes);
        let j = job_of_item(items[last]);
        assert(items.last() == items[last]);
        assert forall|i: int| 0 <= i < init.len() implies #[trigger] init[i] == items[i] by {}
        assert forall|i: int| 0 <= i < init.len() implies #[trigger] kept_at(init, regexes, i) == kept_at(items, regexes, i) by {
            assert(init[i] == items[i]);
        }
        if kept_at(items, regexes, last) && !m0.contains_key(j.id) {
            let ks = ks0.push(last);
            assert forall|k: int| 0 <= k < last && kept_at(items, regexes, k)
                implies job_of_item(#[trigger] items[k]).id != j.id by {
                if job_of_item(items[k]).id == j.id {
                    assert(kept_at(init, regexes, k) && job_of_item(init[k]).id == j.id);
                    assert(kept_ids(init, regexes).contains(j.id));
                }
            }
            assert forall|i: int| 0 <= i < ks.len() implies {
                &&& 0 <= #[trigger] ks[i] < items.len()
                &&& kept_at(items, regexes, ks[i])
                &&& absorb(m, items, regexes).1[i] == job_of_item(items[ks[i]])
                &&& !m.contains_key(job_of_item(items[ks[i]]).id)
                &&& forall|k: int| 0 <= k < ks[i] && kept_at(items, regexes, k)
                    ==> job_of_item(#[trigger] items[k]).id != job_of_item(items[ks[i]]).id
            } by {
                if i < ks0.len() {
                    assert(ks[i] == ks0[i]);
                    assert(items[ks0[i]] == init[ks0[i]]);
                    assert forall|k: int| 0 <= k < ks[i] && kept_at(items, regexes, k)
                        implies job_of_item(#[trigger] items[k]).id != job_of_item(items[ks[i]]).id by {
                        assert(kept_at(init, regexes, k));
                        assert(init[k] == items[k]);
                    }
                }
            }
            ks
        } else {
            assert forall|i: int| 0 <= i < ks0.len() implies {
                &&& 0 <= #[trigger] ks0[i] < items.len()
                &&& kept_at(items, regexes, ks0[i])
                &&& absorb(m, items, regexes).1[i] == job_of_item(items[ks0[i]])
                &&& !m.contains_key(job_of_item(items[ks0[i]]).id)
                &&& forall|k: int| 0 <= k < ks0[i] && kept_at(items, regexes, k)
                    ==> job_of_item(#[trigger] items[k]).id != job_of_item(items[ks0[i]]).id
            } by {
                assert(items[ks0[i]] == init[ks0[i]]);
                assert forall|k: int| 0 <= k < ks0[i] && kept_at(items, regexes, k)
                    implies job_of_item(#[trigger] items[k]).id != job_of_item(items[ks0[i]]).id by {
                    assert(kept_at(init, regexes, k));
                    assert(init[k] == items[k]);
                }
            }
            ks0
        }
    }
}

} // verus!
