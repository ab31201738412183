//! Decisions taken on what the user typed: new todo text, edited text, new tags, due dates
//! picked in a date field, and which tags an item shows or suggests.
use vstd::prelude::*;

use crate::text::same_text;
use crate::todo::{holds_string, lemma_filter_push, string_views, Timestamp};

verus! {

/// The text with leading and trailing whitespace removed, as `str::trim` gives it.
pub uninterp spec fn trim_of(s: Seq<char>) -> Seq<char>;

/// The instant that an RFC 3339 text denotes, where `chrono` accepts the text.
pub uninterp spec fn rfc3339_instant(s: Seq<char>) -> Option<Timestamp>;

/// Relies on `str::trim`: its result depends on the characters alone.
#[verifier::external_body]
fn trimmed(s: &str) -> (r: String)
    ensures
        r@ == trim_of(s@),
{
    s.trim().to_string()
}

/// Relies on `chrono::DateTime::parse_from_rfc3339`, read as seconds and nanoseconds since
/// the Unix epoch: the result depends on the characters alone.
#[verifier::external_body]
fn parse_rfc3339(s: &str) -> (r: Option<Timestamp>)
    ensures
        r == rfc3339_instant(s@),
{
    chrono::DateTime::parse_from_rfc3339(s).ok().map(
        |d| Timestamp { seconds: d.timestamp(), nanos: d.timestamp_subsec_nanos() },
    )
}

/// What a new todo's text or a new tag becomes: the trimmed input, unless nothing is left.
pub fn entry_text(input: &str) -> (r: Option<String>)
    ensures
        r is Some <==> trim_of(input@).len() > 0,
        r is Some ==> (r->0)@ == trim_of(input@),
{
    let t = trimmed(input);
    if t.as_str().is_empty() {
        None
    } else {
        Some(t)
    }
}

/// The new text of an edited todo, from the trimmed edit: none where it is empty or the
/// same as before, so the edit is dropped.
pub fn edit_outcome_trimmed(trimmed_edit: String, initial: &str) -> (r: Option<String>)
    ensures
        r is Some <==> trimmed_edit@.len() > 0 && trimmed_edit@ != initial@,
        r is Some ==> (r->0)@ == trimmed_edit@,
{
    if trimmed_edit.as_str().is_empty() || same_text(trimmed_edit.as_str(), initial) {
        None
    } else {
        Some(trimmed_edit)
    }
}

/// The new text of an edited todo: the trimmed edit, unless it is empty or unchanged.
pub fn edit_outcome(edit: &str, initial: &str) -> (r: Option<String>)
    ensures
        r is Some <==> trim_of(edit@).len() > 0 && trim_of(edit@) != initial@,
        r is Some ==> (r->0)@ == trim_of(edit@),
{
    edit_outcome_trimmed(trimmed(edit), initial)
}

/// The RFC 3339 text of midnight UTC on the day that a date field holds.
pub open spec fn day_start_text(date: Seq<char>) -> Seq<char> {
    date + "T00:00:00Z"@
}

/// The due date that a date field asks for: none for an empty field, else midnight UTC on
/// that day, or none where the field does not hold a date.
pub open spec fn due_date_from_field(date: Seq<char>) -> Option<Timestamp> {
    if date.len() == 0 {
        None
    } else {
        rfc3339_instant(day_start_text(date))
    }
}

/// The due date that a date field asks for.
pub fn due_date_input(date: &str) -> (r: Option<Timestamp>)
    ensures
        r == due_date_from_field(date@),
{
    if date.is_empty() {
        return None;
    }
    let mut text = String::from_str(date);
    text.append("T00:00:00Z");
    parse_rfc3339(text.as_str())
}

/// The due date to store after the date field changed: `Some` of the new value where it
/// differs from the current one, `None` where nothing changes.
pub fn due_date_change(date: &str, current: Option<Timestamp>) -> (r: Option<Option<Timestamp>>)
    ensures
        r == (if due_date_from_field(date@) == current {
            None
        } else {
            Some(due_date_from_field(date@))
        }),
{
    let wanted = due_date_input(date);
    if wanted == current {
        None
    } else {
        Some(wanted)
    }
}

/// The tags an item shows: the first two while its tags are collapsed and not being edited,
/// else all of them.
pub fn shown_tags(tags: &Vec<String>, collapsed: bool, tag_editing: bool) -> (r: Vec<String>)
    ensures
        r@ == (if collapsed && !tag_editing && tags@.len() > 2 {
            tags@.take(2)
        } else {
            tags@
        }),
{
    let limit: usize = if collapsed && !tag_editing && tags.len() > 2 {
        2
    } else {
        tags.len()
    };
    let mut r: Vec<String> = Vec::new();
    let mut i: usize = 0;
    while i < limit
        invariant
            limit <= tags.len(),
            i <= limit,
            r@ == tags@.take(i as int),
        decreases limit - i,
    {
        r.push(tags[i].clone());
        assert(tags@.take(i + 1) =~= tags@.take(i as int).push(tags@[i as int]));
        i = i + 1;
    }
    assert(tags@.take(tags@.len() as int) =~= tags@);
    r
}

/// Whether an item starts with its tags collapsed: it does when it has more than three.
pub fn starts_collapsed(tags: &Vec<String>) -> (r: bool)
    ensures
        r == (tags@.len() > 3),
{
    tags.len() > 3
}

/// The test that keeps the strings not among `tags`.
pub open spec fn not_among(tags: Seq<Seq<char>>) -> spec_fn(Seq<char>) -> bool {
    |t: Seq<char>| !tags.contains(t)
}

/// The default tags that a todo does not carry yet, offered as suggestions.
pub fn tag_suggestions(defaults: &Vec<String>, tags: &Vec<String>) -> (r: Vec<String>)
    ensures
        string_views(r@) == string_views(defaults@).filter(not_among(string_views(tags@))),
{
    let ghost pred = not_among(string_views(tags@));
    let mut r: Vec<String> = Vec::new();
    let mut i: usize = 0;
    while i < defaults.len()
        invariant
            i <= defaults.len(),
            pred == not_among(string_views(tags@)),
            string_views(r@) == string_views(defaults@.take(i as int)).filter(pred),
        decreases defaults.len() - i,
    {
        let ghost before = string_views(defaults@.take(i as int));
        assert(string_views(defaults@.take(i + 1)) =~= before.push(defaults@[i as int]@));
        proof {
            lemma_filter_push(before, defaults@[i as int]@, pred);
        }
        if !holds_string(tags, defaults[i].as_str()) {
            let ghost kept = string_views(r@);
            r.push(defaults[i].clone());
            assert(string_views(r@) =~= kept.push(defaults@[i as int]@));
        }
        i = i + 1;
    }
    assert(defaults@.take(defaults@.len() as int) =~= defaults@);
    r
}

} // verus!
