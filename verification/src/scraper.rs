use vstd::prelude::*;
use crate::text::{contains, to_chars};

verus! {

/// A Hacker News item (a story or a comment) as the API describes it.
pub struct Item {
    pub id: u32,
    pub by: Option<String>,
    pub text: Option<String>,
    pub title: Option<String>,
    pub kids: Option<Vec<u32>>,
    pub time: i64,
}

/// The contents of an [`Item`].
pub struct ItemView {
    pub id: u32,
    pub by: Option<Seq<char>>,
    pub text: Option<Seq<char>>,
    pub title: Option<Seq<char>>,
    pub kids: Option<Seq<u32>>,
    pub time: i64,
}

impl View for Item {
    type V = ItemView;

    open spec fn view(&self) -> ItemView {
        ItemView {
            id: self.id,
            by: self.by.deep_view(),
            text: self.text.deep_view(),
            title: self.title.deep_view(),
            kids: self.kids.deep_view(),
            time: self.time,
        }
    }
}

/// The views of some items.
pub open spec fn item_views(v: Seq<Item>) -> Seq<ItemView> {
    v.map_values(|i: Item| i@)
}

/// What the Hacker News API says of a user: the items it submitted,
/// newest first.
pub struct User {
    pub submitted: Vec<u32>,
}

/// How many items are fetched at once.
pub const ITEMS_PER_BATCH: usize = 20;

/// The title that the monthly job threads carry.
pub open spec fn hiring_title() -> Seq<char> {
    "Ask HN: Who is hiring?"@
}

/// Whether `item` is a job thread: its title mentions "Ask HN: Who is hiring?".
pub open spec fn is_hiring_post(item: ItemView) -> bool {
    match item.title {
        Some(t) => crate::text::contains_seq(t, hiring_title()),
        None => false,
    }
}

/// The ids of the comments of `item`; none when it lists none.
pub open spec fn kid_ids(item: ItemView) -> Seq<u32> {
    match item.kids {
        Some(k) => k,
        None => Seq::empty(),
    }
}

/// The concatenation of `chunks`, first chunk first.
pub open spec fn concat_all(chunks: Seq<Seq<u32>>) -> Seq<u32>
    decreases chunks.len(),
{
    if chunks.len() == 0 {
        Seq::empty()
    } else {
        concat_all(chunks.drop_last()) + chunks.last()
    }
}

/// The views of some vectors of ids.
pub open spec fn id_chunks(v: Seq<Vec<u32>>) -> Seq<Seq<u32>> {
    v.map_values(|c: Vec<u32>| c@)
}

/// Whether `chunks` cuts a sequence into runs of `size` elements, but for
/// a shorter, nonempty last run.
pub open spec fn chunked_by(chunks: Seq<Seq<u32>>, size: nat) -> bool {
    forall|i: int| 0 <= i < chunks.len() ==> 0 < #[trigger] chunks[i].len() <= size
        && (i < chunks.len() - 1 ==> chunks[i].len() == size)
}

impl Item {
    /// Whether the item is a job thread.
    pub fn is_hiring_post(&self) -> (r: bool)
        ensures
            r == is_hiring_post(self@),
    {
        match &self.title {
            Some(t) => contains(t.as_str(), "Ask HN: Who is hiring?"),
            None => false,
        }
    }

    /// The ids of the comments of the item; none when it lists none.
    pub fn kid_ids(&self) -> (r: Vec<u32>)
        ensures
            r@ == kid_ids(self@),
    {
        match &self.kids {
            Some(k) => k.clone(),
            None => Vec::new(),
        }
    }
}

/// Cuts `ids` into runs of `size` ids, in order, as `slice::chunks` does.
pub fn chunk_ids(ids: &Vec<u32>, size: usize) -> (r: Vec<Vec<u32>>)
    requires
        size > 0,
    ensures
        concat_all(id_chunks(r@)) == ids@,
        chunked_by(id_chunks(r@), size as nat),
{
    let mut out: Vec<Vec<u32>> = Vec::new();
    let mut current: Vec<u32> = Vec::new();
    let mut i: usize = 0;
    while i < ids.len()
        invariant
            size > 0,
            i <= ids@.len(),
            concat_all(id_chunks(out@)) + current@ == ids@.take(i as int),
            forall|c: int| 0 <= c < out@.len() ==> #[trigger] out@[c]@.len() == size,
            current@.len() < size,
        decreases ids@.len() - i,
    {
        let ghost prev = current@;
        current.push(ids[i]);
        proof {
            assert(ids@.take(i + 1) =~= ids@.take(i as int).push(ids@[i as int]));
            assert(concat_all(id_chunks(out@)) + current@ =~= (concat_all(id_chunks(out@)) + prev).push(ids@[i as int]));
        }
        i = i + 1;
        if current.len() == size {
            let ghost before = id_chunks(out@);
            let ghost cur = current@;
            out.push(current);
            current = Vec::new();
            proof {
                assert(id_chunks(out@).drop_last() =~= before);
                assert(id_chunks(out@).last() == cur);
                assert(concat_all(id_chunks(out@)) == concat_all(before) + cur);
                assert(current@ =~= Seq::<u32>::empty());
            }
        }
        assert(concat_all(id_chunks(out@)) + current@ =~= ids@.take(i as int));
    }
    if current.len() > 0 {
        let ghost before = id_chunks(out@);
        let ghost cur = current@;
        out.push(current);
        proof {
            assert(id_chunks(out@).drop_last() =~= before);
            assert(id_chunks(out@).last() == cur);
            assert(concat_all(id_chunks(out@)) == concat_all(before) + cur);
        }
    } else {
        assert(current@ =~= Seq::<u32>::empty());
    }
    assert(ids@.take(i as int) =~= ids@);
    assert(concat_all(id_chunks(out@)) =~= ids@);
    out
}

} // verus!
