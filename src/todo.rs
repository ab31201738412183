use vstd::prelude::*;

use crate::text::same_text;

verus! {

/// A point in time, counted in seconds and nanoseconds from the Unix epoch (UTC).
#[derive(Clone, Copy, Debug, PartialEq, Eq, Structural)]
pub struct Timestamp {
    pub seconds: i64,
    pub nanos: u32,
}

/// The mathematical model of one todo: the same fields, with strings as character sequences.
pub struct TodoView {
    pub id: usize,
    pub text: Seq<char>,
    pub completed: bool,
    pub due_date: Option<Timestamp>,
    pub tags: Seq<Seq<char>>,
    pub order: usize,
}

/// A single task record.
#[derive(Clone, Debug, PartialEq)]
pub struct Todo {
    pub id: usize,
    pub text: String,
    pub completed: bool,
    pub due_date: Option<Timestamp>,
    pub tags: Vec<String>,
    pub order: usize,
}

/// The character sequences of a list of strings.
pub open spec fn string_views(v: Seq<String>) -> Seq<Seq<char>> {
    v.map_values(|s: String| s@)
}

impl View for Todo {
    type V = TodoView;

    open spec fn view(&self) -> TodoView {
        TodoView {
            id: self.id,
            text: self.text@,
            completed: self.completed,
            due_date: self.due_date,
            tags: string_views(self.tags@),
            order: self.order,
        }
    }
}

/// A freshly created todo: open, without due date or tags, ordered by its id.
pub open spec fn created(id: usize, text: Seq<char>) -> TodoView {
    TodoView { id, text, completed: false, due_date: None, tags: Seq::empty(), order: id }
}

/// The todo with its completion flag flipped.
pub open spec fn toggled(t: TodoView) -> TodoView {
    TodoView { completed: !t.completed, ..t }
}

/// The tag list with `tag` appended, unless it is already there.
pub open spec fn with_tag(tags: Seq<Seq<char>>, tag: Seq<char>) -> Seq<Seq<char>> {
    if tags.contains(tag) {
        tags
    } else {
        tags.push(tag)
    }
}

/// The tag list with every occurrence of `tag` taken out.
pub open spec fn without_tag(tags: Seq<Seq<char>>, tag: Seq<char>) -> Seq<Seq<char>> {
    tags.filter(other_than(tag))
}

/// The test that keeps every tag but `tag`.
pub open spec fn other_than(tag: Seq<char>) -> spec_fn(Seq<char>) -> bool {
    |t: Seq<char>| t != tag
}

/// Filtering a sequence extended by one element.
pub proof fn lemma_filter_push<A>(s: Seq<A>, x: A, pred: spec_fn(A) -> bool)
    ensures
        s.push(x).filter(pred) == (if pred(x) {
            s.filter(pred).push(x)
        } else {
            s.filter(pred)
        }),
{
    reveal(Seq::filter);
    assert(s.push(x).drop_last() =~= s);
}

/// Copies a list of strings.
pub fn copy_strings(v: &Vec<String>) -> (r: Vec<String>)
    ensures
        r@ == v@,
{
    let mut r: Vec<String> = Vec::new();
    let mut i: usize = 0;
    while i < v.len()
        invariant
            i <= v.len(),
            r@ == v@.subrange(0, i as int),
        decreases v.len() - i,
    {
        r.push(v[i].clone());
        i = i + 1;
    }
    assert(r@ =~= v@);
    r
}

/// Whether the list holds a string with the characters of `x`.
pub fn holds_string(v: &Vec<String>, x: &str) -> (r: bool)
    ensures
        r == string_views(v@).contains(x@),
{
    let mut i: usize = 0;
    while i < v.len()
        invariant
            i <= v.len(),
            forall|j: int| 0 <= j < i ==> v@[j]@ != x@,
        decreases v.len() - i,
    {
        if same_text(v[i].as_str(), x) {
            assert(string_views(v@)[i as int] == x@);
            return true;
        }
        i = i + 1;
    }
    proof {
        if string_views(v@).contains(x@) {
            let j = choose|j: int| 0 <= j < v@.len() && string_views(v@)[j] == x@;
            assert(v@[j]@ == x@);
        }
    }
    false
}

impl Todo {
    /// Creates a new todo with the given text; its order is its id.
    pub fn new(id: usize, text: String) -> (r: Todo)
        ensures
            r@ == created(id, text@),
    {
        let r = Todo { id, text, completed: false, due_date: None, tags: Vec::new(), order: id };
        assert(r@.tags =~= Seq::<Seq<char>>::empty());
        r
    }

    /// A field-by-field copy of the todo.
    pub fn duplicate(&self) -> (r: Todo)
        ensures
            r@ == self@,
    {
        Todo {
            id: self.id,
            text: self.text.clone(),
            completed: self.completed,
            due_date: self.due_date,
            tags: copy_strings(&self.tags),
            order: self.order,
        }
    }

    /// Flips the completed status of the todo.
    pub fn toggle(&mut self)
        ensures
            final(self)@ == toggled(old(self)@),
    {
        self.completed = !self.completed;
    }

    /// Sets, or clears, the due date of the todo.
    pub fn set_due_date(&mut self, date: Option<Timestamp>)
        ensures
            final(self)@ == (TodoView { due_date: date, ..old(self)@ }),
    {
        self.due_date = date;
    }

    /// Whether the todo carries the tag.
    pub fn has_tag(&self, tag: &str) -> (r: bool)
        ensures
            r == self@.tags.contains(tag@),
    {
        holds_string(&self.tags, tag)
    }

    /// Adds a tag to the todo; a tag that is already there is not added again.
    pub fn add_tag(&mut self, tag: String)
        ensures
            final(self)@ == (TodoView { tags: with_tag(old(self)@.tags, tag@), ..old(self)@ }),
    {
        if !self.has_tag(tag.as_str()) {
            self.tags.push(tag);
            assert(string_views(self.tags@) =~= string_views(old(self).tags@).push(tag@));
        }
    }

    /// Removes every occurrence of the tag from the todo.
    pub fn remove_tag(&mut self, tag: &str)
        ensures
            final(self)@ == (TodoView { tags: without_tag(old(self)@.tags, tag@), ..old(self)@ }),
    {
        let mut kept: Vec<String> = Vec::new();
        let mut i: usize = 0;
        while i < self.tags.len()
            invariant
                i <= self.tags.len(),
                self.tags == old(self).tags,
                string_views(kept@) == without_tag(string_views(self.tags@.subrange(0, i as int)), tag@),
            decreases self.tags.len() - i,
        {
            let ghost before = string_views(self.tags@.subrange(0, i as int));
            assert(string_views(self.tags@.subrange(0, i + 1)) =~= before.push(self.tags@[i as int]@));
            proof {
                lemma_filter_push(before, self.tags@[i as int]@, other_than(tag@));
            }
            if !same_text(self.tags[i].as_str(), tag) {
                assert(other_than(tag@)(self.tags@[i as int]@));
                kept.push(self.tags[i].clone());
                assert(string_views(kept@) =~= without_tag(before, tag@).push(self.tags@[i as int]@));
            } else {
                assert(!other_than(tag@)(self.tags@[i as int]@));
            }
            i = i + 1;
        }
        assert(self.tags@.subrange(0, self.tags@.len() as int) =~= self.tags@);
        self.tags = kept;
    }
}

/// The three views of the list by completion status.
#[derive(Clone, Copy, Debug, PartialEq, Eq, Structural)]
pub enum FilterState {
    All,
    Active,
    Completed,
}

impl FilterState {
    /// Whether a todo is visible under this filter.
    pub open spec fn admits(self, t: TodoView) -> bool {
        match self {
            FilterState::All => true,
            FilterState::Active => !t.completed,
            FilterState::Completed => t.completed,
        }
    }

    /// The todos that this filter admits, in their order in `s`.
    pub open spec fn admitted(self, s: Seq<TodoView>) -> Seq<TodoView> {
        s.filter(|t: TodoView| self.admits(t))
    }

    /// Checks if a todo should be visible based on the current filter.
    pub fn matches(&self, todo: &Todo) -> (r: bool)
        ensures
            r == self.admits(todo@),
    {
        match self {
            FilterState::All => true,
            FilterState::Active => !todo.completed,
            FilterState::Completed => todo.completed,
        }
    }
}

impl Default for FilterState {
    fn default() -> (r: FilterState)
        ensures
            r == FilterState::All,
    {
        FilterState::All
    }
}

} // verus!
