//! The tags offered for filtering: the default tags and every tag in use, each once, in
//! ascending text order.
use vstd::prelude::*;

use crate::todo::{holds_string, string_views};

verus! {

/// Text order: character by character by code point, a prefix first. This is the order of
/// `str`'s `Ord`, since UTF-8 keeps the order of code points.
pub open spec fn text_le(a: Seq<char>, b: Seq<char>) -> bool
    decreases a.len(),
{
    if a.len() == 0 {
        true
    } else if b.len() == 0 {
        false
    } else if a[0] != b[0] {
        a[0] < b[0]
    } else {
        text_le(a.drop_first(), b.drop_first())
    }
}

/// Ascending in text order.
pub open spec fn text_sorted(s: Seq<Seq<char>>) -> bool {
    forall|i: int, j: int| 0 <= i < j < s.len() ==> text_le(s[i], s[j])
}

/// Any two texts are ordered one way or the other.
pub proof fn lemma_text_le_total(a: Seq<char>, b: Seq<char>)
    ensures
        text_le(a, b) || text_le(b, a),
    decreases a.len(),
{
    if a.len() > 0 && b.len() > 0 && a[0] == b[0] {
        lemma_text_le_total(a.drop_first(), b.drop_first());
    }
}

/// Text order is transitive.
pub proof fn lemma_text_le_transitive(a: Seq<char>, b: Seq<char>, c: Seq<char>)
    requires
        text_le(a, b),
        text_le(b, c),
    ensures
        text_le(a, c),
    decreases a.len(),
{
    if a.len() > 0 && b.len() > 0 && c.len() > 0 && a[0] == b[0] && b[0] == c[0] {
        lemma_text_le_transitive(a.drop_first(), b.drop_first(), c.drop_first());
    }
}

/// What a sequence extended by one element contains.
pub proof fn lemma_push_contains<A>(s: Seq<A>, x: A)
    ensures
        forall|t: A| #[trigger] s.push(x).contains(t) <==> (s.contains(t) || t == x),
{
    assert forall|t: A| #[trigger] s.push(x).contains(t) <==> (s.contains(t) || t == x) by {
        if s.contains(t) {
            let k = choose|k: int| 0 <= k < s.len() && s[k] == t;
            assert(s.push(x)[k] == t);
        }
        if t == x {
            assert(s.push(x)[s.len() as int] == t);
        }
        if s.push(x).contains(t) && t != x {
            let k = choose|k: int| 0 <= k < s.len() + 1 && s.push(x)[k] == t;
            assert(s[k] == t);
        }
    }
}

/// Whether `a` comes before `b` in text order, or equals it.
pub fn text_at_most(a: &str, b: &str) -> (r: bool)
    ensures
        r == text_le(a@, b@),
{
    let n = a.unicode_len();
    let m = b.unicode_len();
    let mut i: usize = 0;
    assert(a@.skip(0) =~= a@);
    assert(b@.skip(0) =~= b@);
    while i < n && i < m && a.get_char(i) == b.get_char(i)
        invariant
            n == a@.len(),
            m == b@.len(),
            i <= n,
            i <= m,
            text_le(a@, b@) == text_le(a@.skip(i as int), b@.skip(i as int)),
        decreases n - i,
    {
        assert(a@.skip(i as int).drop_first() =~= a@.skip(i + 1));
        assert(b@.skip(i as int).drop_first() =~= b@.skip(i + 1));
        i = i + 1;
    }
    if i == n {
        true
    } else if i == m {
        false
    } else {
        a.get_char(i) < b.get_char(i)
    }
}

/// Adds a text to a list kept sorted and without repeats, unless it is already there.
fn add_sorted_unique(r: &mut Vec<String>, x: &String)
    requires
        text_sorted(string_views(old(r)@)),
        string_views(old(r)@).no_duplicates(),
    ensures
        text_sorted(string_views(final(r)@)),
        string_views(final(r)@).no_duplicates(),
        forall|t: Seq<char>|
            string_views(final(r)@).contains(t) <==> (string_views(old(r)@).contains(t) || t
                == x@),
{
    if holds_string(r, x.as_str()) {
        return;
    }
    let ghost before = string_views(r@);
    let mut pos: usize = 0;
    while pos < r.len() && text_at_most(r[pos].as_str(), x.as_str())
        invariant
            pos <= r.len(),
            before == string_views(r@),
            forall|k: int| 0 <= k < pos ==> text_le(#[trigger] before[k], x@),
        decreases r.len() - pos,
    {
        pos = pos + 1;
    }
    assert forall|k: int| pos <= k < before.len() implies text_le(x@, #[trigger] before[k]) by {
        assert(!text_le(before[pos as int], x@));
        lemma_text_le_total(before[pos as int], x@);
        if k > pos {
            lemma_text_le_transitive(x@, before[pos as int], before[k]);
        }
    }
    r.insert(pos, x.clone());
    let ghost after = string_views(r@);
    assert(after =~= before.insert(pos as int, x@));
    assert forall|t: Seq<char>| after.contains(t) <==> (before.contains(t) || t == x@) by {
        if after.contains(t) {
            let k = choose|k: int| 0 <= k < after.len() && after[k] == t;
            if k < pos {
                assert(before[k] == t);
            } else if k > pos {
                assert(before[k - 1] == t);
            }
        }
        if before.contains(t) {
            let k = choose|k: int| 0 <= k < before.len() && before[k] == t;
            if k < pos {
                assert(after[k] == t);
            } else {
                assert(after[k + 1] == t);
            }
        }
        if t == x@ {
            assert(after[pos as int] == t);
        }
    }
    assert forall|i: int, j: int| 0 <= i < after.len() && 0 <= j < after.len() && i != j implies after[i]
        != after[j] by {
        if i == pos {
            assert(!before.contains(x@));
            if j < pos {
                assert(after[j] == before[j]);
            } else {
                assert(after[j] == before[j - 1]);
            }
        } else if j == pos {
            if i < pos {
                assert(after[i] == before[i]);
            } else {
                assert(after[i] == before[i - 1]);
            }
        }
    }
}

/// The default tags together with the tags in use, each once, in ascending text order.
pub fn tag_choices(defaults: &Vec<String>, in_use: &Vec<String>) -> (r: Vec<String>)
    ensures
        text_sorted(string_views(r@)),
        string_views(r@).no_duplicates(),
        forall|t: Seq<char>|
            string_views(r@).contains(t) <==> (string_views(defaults@).contains(t)
                || string_views(in_use@).contains(t)),
{
    let mut r: Vec<String> = Vec::new();
    let mut i: usize = 0;
    while i < defaults.len()
        invariant
            i <= defaults.len(),
            text_sorted(string_views(r@)),
            string_views(r@).no_duplicates(),
            forall|t: Seq<char>|
                string_views(r@).contains(t) <==> string_views(defaults@.take(i as int)).contains(t),
        decreases defaults.len() - i,
    {
        assert(string_views(defaults@.take(i + 1)) =~= string_views(defaults@.take(i as int)).push(
            defaults@[i as int]@,
        ));
        proof {
            lemma_push_contains(string_views(defaults@.take(i as int)), defaults@[i as int]@);
        }
        add_sorted_unique(&mut r, &defaults[i]);
        i = i + 1;
    }
    assert(defaults@.take(defaults@.len() as int) =~= defaults@);
    let mut j: usize = 0;
    while j < in_use.len()
        invariant
            j <= in_use.len(),
            text_sorted(string_views(r@)),
            string_views(r@).no_duplicates(),
            forall|t: Seq<char>|
                string_views(r@).contains(t) <==> (string_views(defaults@).contains(t)
                    || string_views(in_use@.take(j as int)).contains(t)),
        decreases in_use.len() - j,
    {
        assert(string_views(in_use@.take(j + 1)) =~= string_views(in_use@.take(j as int)).push(
            in_use@[j as int]@,
        ));
        proof {
            lemma_push_contains(string_views(in_use@.take(j as int)), in_use@[j as int]@);
        }
        add_sorted_unique(&mut r, &in_use[j]);
        j = j + 1;
    }
    assert(in_use@.take(in_use@.len() as int) =~= in_use@);
    r
}

} // verus!
