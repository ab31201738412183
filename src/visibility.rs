//! Which todos the list shows: by completion status, by a selected tag, and by a
//! case-insensitive search over text and tags.
use vstd::prelude::*;

use crate::list::views;
use crate::text::{contains_text, occurs_in};
use crate::todo::{holds_string, lemma_filter_push, FilterState, Todo, TodoView};

verus! {

/// The lower-case form of a text, as `str::to_lowercase` gives it.
pub uninterp spec fn lower_of(s: Seq<char>) -> Seq<char>;

/// Relies on `str::to_lowercase`: its result depends on the characters alone.
#[verifier::external_body]
fn lowercase(s: &str) -> (r: String)
    ensures
        r@ == lower_of(s@),
{
    s.to_lowercase()
}

/// Whether the lower-cased search term occurs in the lower-cased text or in one of the
/// lower-cased tags.
pub open spec fn hit_lowered(text: Seq<char>, tags: Seq<Seq<char>>, term: Seq<char>) -> bool {
    occurs_in(term, text) || exists|i: int| 0 <= i < tags.len() && #[trigger] occurs_in(term, tags[i])
}

/// Whether the todo matches the search: an empty search matches every todo; otherwise the
/// term, ignoring case, occurs in the text or in a tag.
pub open spec fn search_hit(t: TodoView, term: Seq<char>) -> bool {
    term.len() == 0 || hit_lowered(
        lower_of(t.text),
        Seq::new(t.tags.len(), |i: int| lower_of(t.tags[i])),
        lower_of(term),
    )
}

/// The character sequence of an optional string.
pub open spec fn opt_view(s: Option<String>) -> Option<Seq<char>> {
    match s {
        Some(x) => Some(x@),
        None => None,
    }
}

/// Whether the list shows the todo: the status filter admits it, it carries the selected
/// tag if one is selected, and it matches the search.
pub open spec fn visible(
    t: TodoView,
    filter: FilterState,
    selected_tag: Option<Seq<char>>,
    search: Seq<char>,
) -> bool {
    &&& filter.admits(t)
    &&& match selected_tag {
        Some(tag) => t.tags.contains(tag),
        None => true,
    }
    &&& search_hit(t, search)
}

/// Whether the lower-cased term occurs in the lower-cased text or in one of the lower-cased
/// tags.
pub fn matches_lowered(text: &str, tags: &Vec<String>, term: &str) -> (r: bool)
    ensures
        r == hit_lowered(text@, tags@.map_values(|s: String| s@), term@),
{
    if contains_text(text, term) {
        return true;
    }
    let ghost tv = tags@.map_values(|s: String| s@);
    let mut i: usize = 0;
    while i < tags.len()
        invariant
            i <= tags.len(),
            tv == tags@.map_values(|s: String| s@),
            forall|k: int| 0 <= k < i ==> !#[trigger] occurs_in(term@, tv[k]),
        decreases tags.len() - i,
    {
        if contains_text(tags[i].as_str(), term) {
            assert(occurs_in(term@, tv[i as int]));
            return true;
        }
        i = i + 1;
    }
    false
}

/// Whether the todo matches the search, ignoring case, in its text or its tags.
pub fn matches_search(todo: &Todo, search: &str) -> (r: bool)
    ensures
        r == search_hit(todo@, search@),
{
    if search.is_empty() {
        return true;
    }
    let term = lowercase(search);
    let text = lowercase(todo.text.as_str());
    let mut tags: Vec<String> = Vec::new();
    let mut i: usize = 0;
    while i < todo.tags.len()
        invariant
            i <= todo.tags.len(),
            tags@.len() == i,
            forall|k: int| 0 <= k < i ==> #[trigger] tags@[k]@ == lower_of(todo.tags@[k]@),
        decreases todo.tags.len() - i,
    {
        tags.push(lowercase(todo.tags[i].as_str()));
        i = i + 1;
    }
    assert(tags@.map_values(|s: String| s@) =~= Seq::new(
        todo@.tags.len(),
        |k: int| lower_of(todo@.tags[k]),
    ));
    matches_lowered(text.as_str(), &tags, term.as_str())
}

/// Whether the list shows the todo under the status filter, the selected tag and the search.
pub fn is_visible(
    todo: &Todo,
    filter: FilterState,
    selected_tag: &Option<String>,
    search: &str,
) -> (r: bool)
    ensures
        r == visible(todo@, filter, opt_view(*selected_tag), search@),
{
    if !filter.matches(todo) {
        return false;
    }
    let tag_ok = match selected_tag {
        Some(tag) => holds_string(&todo.tags, tag.as_str()),
        None => true,
    };
    if !tag_ok {
        return false;
    }
    matches_search(todo, search)
}

/// The todos that the list shows, in their given order.
pub fn visible_todos(
    todos: &Vec<Todo>,
    filter: FilterState,
    selected_tag: &Option<String>,
    search: &str,
) -> (r: Vec<Todo>)
    ensures
        views(r@) == views(todos@).filter(
            |t: TodoView| visible(t, filter, opt_view(*selected_tag), search@),
        ),
{
    let ghost pred = |t: TodoView| visible(t, filter, opt_view(*selected_tag), search@);
    let mut r: Vec<Todo> = Vec::new();
    let mut i: usize = 0;
    while i < todos.len()
        invariant
            i <= todos.len(),
            pred == (|t: TodoView| visible(t, filter, opt_view(*selected_tag), search@)),
            views(r@) == views(todos@).subrange(0, i as int).filter(pred),
        decreases todos.len() - i,
    {
        let ghost prefix = views(todos@).subrange(0, i as int);
        assert(views(todos@).subrange(0, i + 1) =~= prefix.push(todos@[i as int]@));
        proof {
            lemma_filter_push(prefix, todos@[i as int]@, pred);
        }
        if is_visible(&todos[i], filter, selected_tag, search) {
            let ghost before = views(r@);
            r.push(todos[i].duplicate());
            assert(views(r@) =~= before.push(todos@[i as int]@));
        }
        i = i + 1;
    }
    assert(views(todos@).subrange(0, todos@.len() as int) =~= views(todos@));
    r
}

/// What the list says when it shows no todo.
pub open spec fn empty_message(
    has_todos: bool,
    search: Seq<char>,
    tag_selected: bool,
    filter: FilterState,
) -> Seq<char> {
    if !has_todos {
        "Add your first todo above! \u{2728}"@
    } else if search.len() > 0 {
        "No todos match your search: '"@ + search + "'"@
    } else if tag_selected {
        "No todos found with the selected tag."@
    } else {
        match filter {
            FilterState::Active => "All tasks done! \u{1f389}"@,
            FilterState::Completed => "No completed tasks yet."@,
            FilterState::All => "No tasks match the current filter."@,
        }
    }
}

/// What the list says when it shows no todo: that the list is empty, that the search, the
/// selected tag or the status filter left nothing.
pub fn empty_state_message(
    has_todos: bool,
    search: &str,
    tag_selected: bool,
    filter: FilterState,
) -> (r: String)
    ensures
        r@ == empty_message(has_todos, search@, tag_selected, filter),
{
    if !has_todos {
        String::from_str("Add your first todo above! \u{2728}")
    } else if !search.is_empty() {
        let mut r = String::from_str("No todos match your search: '");
        r.append(search);
        r.append("'");
        r
    } else if tag_selected {
        String::from_str("No todos found with the selected tag.")
    } else {
        match filter {
            FilterState::Active => String::from_str("All tasks done! \u{1f389}"),
            FilterState::Completed => String::from_str("No completed tasks yet."),
            FilterState::All => String::from_str("No tasks match the current filter."),
        }
    }
}

/// The words after the count of open todos: singular for exactly one.
pub fn items_left_words(active_count: usize) -> (r: &'static str)
    ensures
        r@ == (if active_count == 1 {
            "item left"@
        } else {
            "items left"@
        }),
{
    if active_count == 1 {
        "item left"
    } else {
        "items left"
    }
}

} // verus!
