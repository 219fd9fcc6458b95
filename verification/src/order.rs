use vstd::prelude::*;

verus! {

/// Whether `s` is in ascending order of `key`.
pub open spec fn sorted_by_key<A>(s: Seq<A>, key: spec_fn(A) -> int) -> bool {
    forall|i: int, j: int| 0 <= i < j < s.len() ==> key(#[trigger] s[i]) <= key(#[trigger] s[j])
}

/// Inserting `x` after every element whose key is no greater than its own,
/// and before one with a greater key, keeps a sequence in order of `key`.
pub proof fn lemma_insert_keeps_sorted<A>(s: Seq<A>, key: spec_fn(A) -> int, pos: int, x: A)
    requires
        sorted_by_key(s, key),
        0 <= pos <= s.len(),
        forall|a: int| 0 <= a < pos ==> key(#[trigger] s[a]) <= key(x),
        pos < s.len() ==> key(s[pos]) > key(x),
    ensures
        sorted_by_key(s.insert(pos, x), key),
{
    let n = s.insert(pos, x);
    assert forall|i: int, j: int| 0 <= i < j < n.len() implies key(#[trigger] n[i]) <= key(#[trigger] n[j]) by {
        if j < pos {
            assert(n[i] == s[i] && n[j] == s[j]);
        } else if j == pos {
            assert(n[i] == s[i]);
        } else if i < pos {
            assert(n[i] == s[i]);
            assert(n[j] == s[j - 1]);
        } else if i == pos {
            assert(n[j] == s[j - 1]);
            assert(key(s[pos]) <= key(s[j - 1]));
        } else {
            assert(n[i] == s[i - 1]);
            assert(n[j] == s[j - 1]);
        }
    }
}

} // verus!
