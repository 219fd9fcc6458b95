use vstd::prelude::*;
use vstd::string::*;
use crate::decimal::{decimal, push_decimal};
use crate::order::{lemma_insert_keeps_sorted, sorted_by_key};

verus! {

/// Address of the Hacker News API that describes user `user_id`.
pub fn user_url(user_id: &str) -> (r: String)
    ensures
        r@ == "https://hacker-news.firebaseio.com/v0/user/"@ + user_id@ + ".json?print=pretty"@,
{
    let mut url = String::from_str("https://hacker-news.firebaseio.com/v0/user/");
    url.append(user_id);
    url.append(".json?print=pretty");
    url
}

/// Address of the Hacker News API that describes item `hn_id`.
pub fn item_url(hn_id: u32) -> (r: String)
    ensures
        r@ == "https://hacker-news.firebaseio.com/v0/item/"@ + decimal(hn_id as nat)
            + ".json?print=pretty"@,
{
    let mut url = String::from_str("https://hacker-news.firebaseio.com/v0/item/");
    push_decimal(&mut url, hn_id as u64);
    url.append(".json?print=pretty");
    url
}

/// Whether an id comes after `after`.
pub open spec fn above(after: u32) -> spec_fn(u32) -> bool {
    |id: u32| id > after
}

/// An id, as the key that comment ids are ordered by.
pub open spec fn id_value() -> spec_fn(u32) -> int {
    |id: u32| id as int
}

/// Whether `s` is in ascending order.
pub open spec fn ascending(s: Seq<u32>) -> bool {
    sorted_by_key(s, id_value())
}

/// The comment ids above `after_job_id`, in ascending order (duplicates kept).
pub fn comment_ids_after(comment_ids: &Vec<u32>, after_job_id: u32) -> (r: Vec<u32>)
    ensures
        ascending(r@),
        r@.to_multiset() == comment_ids@.filter(above(after_job_id)).to_multiset(),
{
    broadcast use vstd::seq_lib::group_to_multiset_ensures;
    let mut out: Vec<u32> = Vec::new();
    let mut i: usize = 0;
    while i < comment_ids.len()
        invariant
            i <= comment_ids@.len(),
            ascending(out@),
            out@.to_multiset() == comment_ids@.take(i as int).filter(above(after_job_id)).to_multiset(),
        decreases comment_ids@.len() - i,
    {
        let id = comment_ids[i];
        let ghost before = out@;
        proof {
            let t = comment_ids@.take(i + 1);
            assert(t.drop_last() =~= comment_ids@.take(i as int));
            assert(t.last() == id);
            reveal_with_fuel(Seq::<_>::filter, 1);
            assert(t.filter(above(after_job_id)) == if id > after_job_id {
                comment_ids@.take(i as int).filter(above(after_job_id)).push(id)
            } else {
                comment_ids@.take(i as int).filter(above(after_job_id))
            });
        }
        if id > after_job_id {
            let mut pos: usize = 0;
            while pos < out.len() && out[pos] <= id
                invariant
                    pos <= out@.len(),
                    forall|a: int| 0 <= a < pos ==> #[trigger] out@[a] <= id,
                decreases out@.len() - pos,
            {
                pos = pos + 1;
            }
            proof {
                lemma_insert_keeps_sorted(before, id_value(), pos as int, id);
            }
            out.insert(pos, id);
            proof {
                assert(out@ =~= before.insert(pos as int, id));
                vstd::seq_lib::to_multiset_insert(before, pos as int, id);
                vstd::seq_lib::to_multiset_build(comment_ids@.take(i as int).filter(above(after_job_id)), id);
            }
        }
        i = i + 1;
    }
    assert(comment_ids@.take(i as int) =~= comment_ids@);
    out
}

} // verus!
