use vstd::prelude::*;

use crate::list::{edited, ids_unique, index_of, lemma_index_of};
use crate::todo::{toggled, with_tag, without_tag, FilterState, TodoView};

verus! {

broadcast use vstd::seq_lib::group_to_multiset_ensures;

/// Toggling the same todo twice restores every todo as it was.
pub proof fn lemma_toggle_twice(s: Seq<TodoView>, id: usize)
    requires
        ids_unique(s),
    ensures
        edited(edited(s, id, |t: TodoView| toggled(t)), id, |t: TodoView| toggled(t)) == s,
{
    let once = edited(s, id, |t: TodoView| toggled(t));
    let twice = edited(once, id, |t: TodoView| toggled(t));
    if exists|i: int| 0 <= i < s.len() && #[trigger] s[i].id == id {
        let p = index_of(s, id);
        assert(once[p].id == id);
        assert(ids_unique(once)) by {
            assert forall|i: int, j: int|
                0 <= i < once.len() && 0 <= j < once.len() && i != j implies once[i].id
                != once[j].id by {
                assert(once[i].id == s[i].id);
                assert(once[j].id == s[j].id);
            }
        }
        lemma_index_of(once, p);
        assert(twice =~= s);
    }
}

/// The open todos and the completed todos together are all the todos, each exactly once:
/// as multisets the two filtered views add up to the whole, and no todo is in both.
pub proof fn lemma_status_filters_partition(s: Seq<TodoView>)
    ensures
        s.to_multiset() == FilterState::Active.admitted(s).to_multiset().add(
            FilterState::Completed.admitted(s).to_multiset(),
        ),
        forall|t: TodoView|
            !(#[trigger] FilterState::Active.admitted(s).contains(t)
                && FilterState::Completed.admitted(s).contains(t)),
    decreases s.len(),
{
    broadcast use vstd::seq_lib::group_filter_ensures;

    let active = |t: TodoView| FilterState::Active.admits(t);
    let completed = |t: TodoView| FilterState::Completed.admits(t);
    reveal(Seq::filter);
    if s.len() > 0 {
        let d = s.drop_last();
        lemma_status_filters_partition(d);
        assert(s =~= d.push(s.last()));
        assert(s.to_multiset() =~= s.filter(active).to_multiset().add(
            s.filter(completed).to_multiset(),
        ));
    } else {
        assert(s.to_multiset() =~= s.filter(active).to_multiset().add(
            s.filter(completed).to_multiset(),
        ));
    }
    assert forall|t: TodoView|
        !(#[trigger] s.filter(active).contains(t) && s.filter(completed).contains(t)) by {
        if s.filter(active).contains(t) && s.filter(completed).contains(t) {
            let i = choose|i: int| 0 <= i < s.filter(active).len() && s.filter(active)[i] == t;
            let j = choose|j: int| 0 <= j < s.filter(completed).len() && s.filter(completed)[j] == t;
            assert(active(s.filter(active)[i]));
            assert(completed(s.filter(completed)[j]));
        }
    }
}

/// Adding a tag a second time changes nothing, and a tag added to a list without it
/// stands there exactly once, at the end.
pub proof fn lemma_add_tag_twice(tags: Seq<Seq<char>>, tag: Seq<char>)
    ensures
        with_tag(with_tag(tags, tag), tag) == with_tag(tags, tag),
        with_tag(tags, tag).contains(tag),
        !tags.contains(tag) ==> with_tag(with_tag(tags, tag), tag) == tags.push(tag),
{
    if !tags.contains(tag) {
        assert(tags.push(tag)[tags.len() as int] == tag);
    }
}

/// Removing a tag that is not there leaves the tags as they were.
pub proof fn lemma_remove_absent_tag(tags: Seq<Seq<char>>, tag: Seq<char>)
    requires
        !tags.contains(tag),
    ensures
        without_tag(tags, tag) == tags,
    decreases tags.len(),
{
    reveal(Seq::filter);
    if tags.len() > 0 {
        let d = tags.drop_last();
        assert(!d.contains(tag)) by {
            if d.contains(tag) {
                let k = choose|k: int| 0 <= k < d.len() && d[k] == tag;
                assert(tags[k] == tag);
            }
        }
        lemma_remove_absent_tag(d, tag);
        assert(tags[tags.len() - 1] != tag);
        assert(d.push(tags.last()) =~= tags);
    }
}

} // verus!
