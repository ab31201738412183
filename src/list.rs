use vstd::prelude::*;

use crate::storage::StorageError;
use crate::todo::{
    created, holds_string, lemma_filter_push, string_views, toggled, with_tag, without_tag,
    FilterState, Timestamp, Todo, TodoView,
};

verus! {

broadcast use vstd::seq_lib::group_to_multiset_ensures;

/// The models of a sequence of todos.
pub open spec fn views(v: Seq<Todo>) -> Seq<TodoView> {
    v.map_values(|t: Todo| t@)
}

/// Whether some todo in `s` has the id.
pub open spec fn has_id(s: Seq<TodoView>, id: usize) -> bool {
    exists|i: int| 0 <= i < s.len() && #[trigger] s[i].id == id
}

/// The position of the todo with the id (meaningful where `has_id` holds).
pub open spec fn index_of(s: Seq<TodoView>, id: usize) -> int {
    choose|i: int| 0 <= i < s.len() && #[trigger] s[i].id == id
}

/// No two todos share an id.
pub open spec fn ids_unique(s: Seq<TodoView>) -> bool {
    forall|i: int, j: int| 0 <= i < s.len() && 0 <= j < s.len() && i != j ==> s[i].id != s[j].id
}

/// No two todos share an order value.
pub open spec fn orders_distinct(s: Seq<TodoView>) -> bool {
    forall|i: int, j: int|
        0 <= i < s.len() && 0 <= j < s.len() && i != j ==> s[i].order != s[j].order
}

/// Every order value lies below `bound`.
pub open spec fn orders_below(s: Seq<TodoView>, bound: usize) -> bool {
    forall|i: int| 0 <= i < s.len() ==> #[trigger] s[i].order < bound
}

/// The order values are a permutation of `1..=n` for `n` todos: distinct, and each in that range.
pub open spec fn dense(s: Seq<TodoView>) -> bool {
    &&& orders_distinct(s)
    &&& forall|i: int| 0 <= i < s.len() ==> 1 <= #[trigger] s[i].order <= s.len()
}

/// Ascending by order value.
pub open spec fn sorted_by_order(s: Seq<TodoView>) -> bool {
    forall|i: int, j: int| 0 <= i < j < s.len() ==> s[i].order <= s[j].order
}

/// The todos with the given id changed by `f`; the others, and a missing id, unchanged.
pub open spec fn edited(s: Seq<TodoView>, id: usize, f: spec_fn(TodoView) -> TodoView) -> Seq<
    TodoView,
> {
    if has_id(s, id) {
        s.update(index_of(s, id), f(s[index_of(s, id)]))
    } else {
        s
    }
}

/// The completed todos.
pub open spec fn completed_of(s: Seq<TodoView>) -> Seq<TodoView> {
    s.filter(|t: TodoView| t.completed)
}

/// The todos still open.
pub open spec fn active_of(s: Seq<TodoView>) -> Seq<TodoView> {
    s.filter(|t: TodoView| !t.completed)
}

/// A todo's new order value when the todo at `source_order` moves to `target_order`.
pub open spec fn shifted_order(order: usize, source_order: usize, target_order: usize) -> usize {
    if source_order < target_order {
        if source_order < order && order <= target_order {
            (order - 1) as usize
        } else {
            order
        }
    } else {
        if target_order <= order && order < source_order {
            (order + 1) as usize
        } else {
            order
        }
    }
}

/// The todos after moving the source todo into the target todo's slot: the source takes
/// the target's order value, and the todos in between shift by one toward the gap.
pub open spec fn reordered(s: Seq<TodoView>, source_id: usize, target_id: usize) -> Seq<TodoView> {
    let source_order = s[index_of(s, source_id)].order;
    let target_order = s[index_of(s, target_id)].order;
    Seq::new(
        s.len(),
        |i: int|
            if s[i].id == source_id {
                TodoView { order: target_order, ..s[i] }
            } else {
                TodoView { order: shifted_order(s[i].order, source_order, target_order), ..s[i] }
            },
    )
}

/// Whether some todo carries the tag.
pub open spec fn tagged(s: Seq<TodoView>, tag: Seq<char>) -> bool {
    exists|k: int| 0 <= k < s.len() && #[trigger] s[k].tags.contains(tag)
}

/// Whether one of the first `i` todos, or one of the first `j` tags of todo `i`, is the tag.
pub open spec fn tagged_within(s: Seq<TodoView>, i: int, j: int, tag: Seq<char>) -> bool {
    (exists|k: int| 0 <= k < i && #[trigger] s[k].tags.contains(tag)) || (exists|m: int|
        0 <= m < j && s[i].tags[m] == tag)
}

/// Whether a reorder request names two different todos that both exist.
pub open spec fn reorder_valid(s: Seq<TodoView>, source_id: usize, target_id: usize) -> bool {
    source_id != target_id && has_id(s, source_id) && has_id(s, target_id)
}

/// Whether stored parts make a consistent list: ids unique and all below the id counter.
pub open spec fn parts_valid(s: Seq<TodoView>, next_id: usize) -> bool {
    ids_unique(s) && forall|i: int| 0 <= i < s.len() ==> #[trigger] s[i].id < next_id
}

/// In a list with unique ids, the todo at a position is the one `index_of` finds by its id.
pub proof fn lemma_index_of(s: Seq<TodoView>, i: int)
    requires
        ids_unique(s),
        0 <= i < s.len(),
    ensures
        has_id(s, s[i].id),
        index_of(s, s[i].id) == i,
{
    assert(s[i].id == s[i].id);
}

/// Inserting into a sequence adds the element to its multiset.
pub proof fn lemma_insert_multiset<A>(s: Seq<A>, pos: int, x: A)
    requires
        0 <= pos <= s.len(),
    ensures
        s.insert(pos, x).to_multiset() == s.to_multiset().insert(x),
{
    let t = s.insert(pos, x);
    assert(t.remove(pos) =~= s);
    assert(t[pos] == x);
    assert(t.contains(x));
    assert(t.to_multiset() =~= s.to_multiset().insert(x));
}

/// Inserts a todo into a list kept sorted by order value, after those of equal order.
fn insert_sorted(r: &mut Vec<Todo>, t: Todo)
    requires
        sorted_by_order(views(old(r)@)),
    ensures
        sorted_by_order(views(final(r)@)),
        views(final(r)@).to_multiset() == views(old(r)@).to_multiset().insert(t@),
{
    let mut pos: usize = 0;
    while pos < r.len() && r[pos].order <= t.order
        invariant
            pos <= r.len(),
            sorted_by_order(views(r@)),
            forall|k: int| 0 <= k < pos ==> r@[k].order <= t.order,
        decreases r.len() - pos,
    {
        pos = pos + 1;
    }
    let ghost before = views(r@);
    assert(forall|k: int| pos <= k < before.len() ==> before[k].order > t.order) by {
        if pos < before.len() {
            assert(before[pos as int].order > t.order);
        }
    }
    proof {
        lemma_insert_multiset(before, pos as int, t@);
    }
    r.insert(pos, t);
    assert(views(r@) =~= before.insert(pos as int, t@));
}

/// The collection of todos, each with a unique id, and the counter that assigns ids.
#[derive(Clone, Debug)]
pub struct TodoList {
    todos: Vec<Todo>,
    next_id: usize,
}

impl View for TodoList {
    type V = Seq<TodoView>;

    closed spec fn view(&self) -> Seq<TodoView> {
        views(self.todos@)
    }
}

impl Default for TodoList {
    fn default() -> (r: TodoList)
        ensures
            r.wf(),
            r@ == Seq::<TodoView>::empty(),
            r.next_id_spec() == 1,
    {
        TodoList::new()
    }
}

impl TodoList {
    /// The id that the next `add` assigns.
    pub closed spec fn next_id_spec(&self) -> usize {
        self.next_id
    }

    /// Ids are unique and all lie below the id counter.
    pub closed spec fn wf(&self) -> bool {
        parts_valid(self@, self.next_id)
    }

    /// Creates an empty list whose first id is 1.
    pub fn new() -> (r: TodoList)
        ensures
            r.wf(),
            dense(r@),
            orders_below(r@, r.next_id_spec()),
            r@ == Seq::<TodoView>::empty(),
            r.next_id_spec() == 1,
    {
        let r = TodoList { todos: Vec::new(), next_id: 1 };
        assert(r@ =~= Seq::<TodoView>::empty());
        r
    }

    /// The id that the next `add` assigns.
    pub fn next_id(&self) -> (r: usize)
        ensures
            r == self.next_id_spec(),
    {
        self.next_id
    }

    /// The position of the todo with the id, if there is one.
    fn position(&self, id: usize) -> (r: Option<usize>)
        requires
            self.wf(),
        ensures
            r is Some <==> has_id(self@, id),
            r is Some ==> r->0 == index_of(self@, id),
    {
        let mut i: usize = 0;
        while i < self.todos.len()
            invariant
                self.wf(),
                i <= self.todos.len(),
                forall|k: int| 0 <= k < i ==> self@[k].id != id,
            decreases self.todos.len() - i,
        {
            if self.todos[i].id == id {
                proof {
                    lemma_index_of(self@, i as int);
                }
                return Some(i);
            }
            i = i + 1;
        }
        None
    }

    /// The todo with the id, if there is one.
    pub fn get(&self, id: usize) -> (r: Option<&Todo>)
        requires
            self.wf(),
        ensures
            r is Some <==> has_id(self@, id),
            r is Some ==> (r->0)@ == self@[index_of(self@, id)],
    {
        match self.position(id) {
            Some(p) => Some(&self.todos[p]),
            None => None,
        }
    }

    /// Adds a new todo with the given text; its id and its order are the id counter.
    pub fn add(&mut self, text: String) -> (r: usize)
        requires
            old(self).wf(),
            old(self).next_id_spec() < usize::MAX,
        ensures
            final(self).wf(),
            r == old(self).next_id_spec(),
            final(self).next_id_spec() == r + 1,
            final(self)@ == old(self)@.push(created(r, text@)),
            orders_below(old(self)@, old(self).next_id_spec()) ==> orders_below(
                final(self)@,
                final(self).next_id_spec(),
            ),
            orders_below(old(self)@, old(self).next_id_spec()) && orders_distinct(old(self)@)
                ==> orders_distinct(final(self)@),
    {
        let id = self.next_id;
        let ghost before = self@;
        self.todos.push(Todo::new(id, text));
        self.next_id = self.next_id + 1;
        assert(self@ =~= before.push(created(id, text@)));
        id
    }

    /// Removes the todo with the id, and returns it.
    pub fn remove(&mut self, id: usize) -> (r: Option<Todo>)
        requires
            old(self).wf(),
        ensures
            final(self).wf(),
            final(self).next_id_spec() == old(self).next_id_spec(),
            r is Some <==> has_id(old(self)@, id),
            r is Some ==> (r->0)@ == old(self)@[index_of(old(self)@, id)] && final(self)@
                == old(self)@.remove(index_of(old(self)@, id)),
            r is None ==> final(self)@ == old(self)@,
            orders_distinct(old(self)@) ==> orders_distinct(final(self)@),
            orders_below(old(self)@, old(self).next_id_spec()) ==> orders_below(
                final(self)@,
                final(self).next_id_spec(),
            ),
    {
        match self.position(id) {
            Some(p) => {
                let ghost before = self@;
                let t = self.todos.remove(p);
                let ghost after = before.remove(p as int);
                assert(self@ =~= after);
                assert forall|i: int| 0 <= i < after.len() implies after[i] == before[
                    if i < p {
                        i
                    } else {
                        i + 1
                    }
                ] by {}
                Some(t)
            },
            None => None,
        }
    }

    /// Toggles the completion status of the todo with the id; false if there is none.
    pub fn toggle_completion(&mut self, todo_id: usize) -> (r: bool)
        requires
            old(self).wf(),
        ensures
            final(self).wf(),
            final(self).next_id_spec() == old(self).next_id_spec(),
            r == has_id(old(self)@, todo_id),
            final(self)@ == edited(old(self)@, todo_id, |t: TodoView| toggled(t)),
    {
        match self.position(todo_id) {
            Some(p) => {
                let ghost before = self@;
                self.todos[p].toggle();
                assert(self@ =~= before.update(p as int, toggled(before[p as int])));
                true
            },
            None => false,
        }
    }

    /// Toggles the completion status of the todo with the id; false if there is none.
    pub fn toggle(&mut self, id: usize) -> (r: bool)
        requires
            old(self).wf(),
        ensures
            final(self).wf(),
            final(self).next_id_spec() == old(self).next_id_spec(),
            r == has_id(old(self)@, id),
            final(self)@ == edited(old(self)@, id, |t: TodoView| toggled(t)),
    {
        self.toggle_completion(id)
    }

    /// Replaces the text of the todo with the id; false if there is none.
    pub fn update_text(&mut self, id: usize, text: String) -> (r: bool)
        requires
            old(self).wf(),
        ensures
            final(self).wf(),
            final(self).next_id_spec() == old(self).next_id_spec(),
            r == has_id(old(self)@, id),
            final(self)@ == edited(old(self)@, id, |t: TodoView| TodoView { text: text@, ..t }),
    {
        match self.position(id) {
            Some(p) => {
                let ghost before = self@;
                let ghost new_text = text@;
                self.todos[p].text = text;
                assert(self@ =~= before.update(
                    p as int,
                    TodoView { text: new_text, ..before[p as int] },
                ));
                true
            },
            None => false,
        }
    }

    /// Sets, or clears, the due date of the todo with the id; false if there is none.
    pub fn set_due_date(&mut self, id: usize, date: Option<Timestamp>) -> (r: bool)
        requires
            old(self).wf(),
        ensures
            final(self).wf(),
            final(self).next_id_spec() == old(self).next_id_spec(),
            r == has_id(old(self)@, id),
            final(self)@ == edited(old(self)@, id, |t: TodoView| TodoView { due_date: date, ..t }),
    {
        match self.position(id) {
            Some(p) => {
                let ghost before = self@;
                self.todos[p].set_due_date(date);
                assert(self@ =~= before.update(
                    p as int,
                    TodoView { due_date: date, ..before[p as int] },
                ));
                true
            },
            None => false,
        }
    }

    /// Adds a tag to the todo with the id; false if there is none.
    pub fn add_tag(&mut self, id: usize, tag: String) -> (r: bool)
        requires
            old(self).wf(),
        ensures
            final(self).wf(),
            final(self).next_id_spec() == old(self).next_id_spec(),
            r == has_id(old(self)@, id),
            final(self)@ == edited(
                old(self)@,
                id,
                |t: TodoView| TodoView { tags: with_tag(t.tags, tag@), ..t },
            ),
    {
        match self.position(id) {
            Some(p) => {
                let ghost before = self@;
                let ghost tag_text = tag@;
                self.todos[p].add_tag(tag);
                assert(self@ =~= before.update(
                    p as int,
                    TodoView { tags: with_tag(before[p as int].tags, tag_text), ..before[p as int] },
                ));
                true
            },
            None => false,
        }
    }

    /// Removes a tag from the todo with the id; false if there is none.
    pub fn remove_tag(&mut self, id: usize, tag: &str) -> (r: bool)
        requires
            old(self).wf(),
        ensures
            final(self).wf(),
            final(self).next_id_spec() == old(self).next_id_spec(),
            r == has_id(old(self)@, id),
            final(self)@ == edited(
                old(self)@,
                id,
                |t: TodoView| TodoView { tags: without_tag(t.tags, tag@), ..t },
            ),
    {
        match self.position(id) {
            Some(p) => {
                let ghost before = self@;
                self.todos[p].remove_tag(tag);
                assert(self@ =~= before.update(
                    p as int,
                    TodoView { tags: without_tag(before[p as int].tags, tag@), ..before[p as int] },
                ));
                true
            },
            None => false,
        }
    }

    /// Adjusts the order values of every todo for moving the todo at `source_order` to
    /// `target_order`, the source todo included.
    fn shift_orders(&mut self, source_order: usize, target_order: usize)
        requires
            old(self).wf(),
        ensures
            final(self).wf(),
            final(self).next_id_spec() == old(self).next_id_spec(),
            final(self)@ == Seq::new(
                old(self)@.len(),
                |i: int|
                    TodoView {
                        order: shifted_order(old(self)@[i].order, source_order, target_order),
                        ..old(self)@[i]
                    },
            ),
    {
        let ghost before = self@;
        let mut i: usize = 0;
        while i < self.todos.len()
            invariant
                i <= self.todos.len(),
                self.todos.len() == before.len(),
                self.next_id == old(self).next_id,
                before == old(self)@,
                forall|k: int|
                    0 <= k < i ==> self@[k] == (TodoView {
                        order: shifted_order(before[k].order, source_order, target_order),
                        ..before[k]
                    }),
                forall|k: int| i <= k < before.len() ==> self@[k] == before[k],
            decreases self.todos.len() - i,
        {
            let ghost cur = self@;
            let order = self.todos[i].order;
            let new_order = if source_order < target_order {
                if source_order < order && order <= target_order {
                    order - 1
                } else {
                    order
                }
            } else {
                if target_order <= order && order < source_order {
                    order + 1
                } else {
                    order
                }
            };
            self.todos[i].order = new_order;
            assert(self@ =~= cur.update(i as int, TodoView { order: new_order, ..cur[i as int] }));
            i = i + 1;
        }
        assert(forall|k: int| 0 <= k < before.len() ==> self@[k].id == before[k].id);
    }

    /// Moves the source todo into the target todo's slot. Fails, changing nothing, unless
    /// the two ids differ and both exist.
    pub fn reorder(&mut self, source_id: usize, target_id: usize) -> (r: bool)
        requires
            old(self).wf(),
        ensures
            final(self).wf(),
            final(self).next_id_spec() == old(self).next_id_spec(),
            r == reorder_valid(old(self)@, source_id, target_id),
            r ==> final(self)@ == reordered(old(self)@, source_id, target_id),
            !r ==> final(self)@ == old(self)@,
            orders_distinct(old(self)@) ==> orders_distinct(final(self)@),
            dense(old(self)@) ==> dense(final(self)@),
            orders_below(old(self)@, old(self).next_id_spec()) ==> orders_below(
                final(self)@,
                final(self).next_id_spec(),
            ),
    {
        if source_id == target_id {
            return false;
        }
        let ps = match self.position(source_id) {
            Some(p) => p,
            None => {
                return false;
            },
        };
        let pt = match self.position(target_id) {
            Some(p) => p,
            None => {
                return false;
            },
        };
        let ghost before = self@;
        let source_order = self.todos[ps].order;
        let target_order = self.todos[pt].order;
        self.shift_orders(source_order, target_order);
        let ghost shifted = self@;
        assert(self@.len() == before.len());
        assert(self.todos@.len() == self@.len());
        self.todos[ps].order = target_order;
        proof {
            assert(self@ =~= shifted.update(ps as int, TodoView { order: target_order, ..shifted[ps as int] }));
            assert forall|i: int| 0 <= i < before.len() implies (before[i].id == source_id <==> i == ps) by {
                lemma_index_of(before, i);
            }
            assert(self@ =~= reordered(before, source_id, target_id));
            lemma_reorder_keeps_order_sets(before, source_id, target_id);
        }
        true
    }

    /// Every todo, sorted ascending by order value.
    pub fn all(&self) -> (r: Vec<Todo>)
        ensures
            sorted_by_order(views(r@)),
            views(r@).to_multiset() == self@.to_multiset(),
    {
        let mut r: Vec<Todo> = Vec::new();
        let mut i: usize = 0;
        while i < self.todos.len()
            invariant
                i <= self.todos.len(),
                sorted_by_order(views(r@)),
                views(r@).to_multiset() == self@.subrange(0, i as int).to_multiset(),
            decreases self.todos.len() - i,
        {
            assert(self@.subrange(0, i + 1) =~= self@.subrange(0, i as int).push(self@[i as int]));
            insert_sorted(&mut r, self.todos[i].duplicate());
            i = i + 1;
        }
        assert(self@.subrange(0, self@.len() as int) =~= self@);
        r
    }

    /// The todos that the filter admits, sorted ascending by order value.
    pub fn filtered(&self, filter: FilterState) -> (r: Vec<Todo>)
        ensures
            sorted_by_order(views(r@)),
            views(r@).to_multiset() == filter.admitted(self@).to_multiset(),
    {
        let ghost pred = |t: TodoView| filter.admits(t);
        let mut r: Vec<Todo> = Vec::new();
        let mut i: usize = 0;
        while i < self.todos.len()
            invariant
                i <= self.todos.len(),
                pred == (|t: TodoView| filter.admits(t)),
                sorted_by_order(views(r@)),
                views(r@).to_multiset() == self@.subrange(0, i as int).filter(pred).to_multiset(),
            decreases self.todos.len() - i,
        {
            let ghost prefix = self@.subrange(0, i as int);
            assert(self@.subrange(0, i + 1) =~= prefix.push(self@[i as int]));
            proof {
                lemma_filter_push(prefix, self@[i as int], pred);
            }
            if filter.matches(&self.todos[i]) {
                insert_sorted(&mut r, self.todos[i].duplicate());
            }
            i = i + 1;
        }
        assert(self@.subrange(0, self@.len() as int) =~= self@);
        r
    }

    /// Removes every completed todo, and returns how many there were.
    pub fn clear_completed(&mut self) -> (r: usize)
        requires
            old(self).wf(),
        ensures
            final(self).wf(),
            final(self).next_id_spec() == old(self).next_id_spec(),
            r == completed_of(old(self)@).len(),
            final(self)@ == active_of(old(self)@),
            completed_of(final(self)@).len() == 0,
    {
        let ghost before = self@;
        let mut kept: Vec<Todo> = Vec::new();
        let mut count: usize = 0;
        let mut i: usize = 0;
        while i < self.todos.len()
            invariant
                i <= self.todos.len(),
                before == self@,
                views(kept@) == active_of(before.subrange(0, i as int)),
                count == completed_of(before.subrange(0, i as int)).len(),
                count <= i,
            decreases self.todos.len() - i,
        {
            let ghost prefix = before.subrange(0, i as int);
            assert(before.subrange(0, i + 1) =~= prefix.push(before[i as int]));
            proof {
                lemma_filter_push(prefix, before[i as int], |t: TodoView| t.completed);
                lemma_filter_push(prefix, before[i as int], |t: TodoView| !t.completed);
            }
            if self.todos[i].completed {
                count = count + 1;
            } else {
                let ghost k = kept@;
                kept.push(self.todos[i].duplicate());
                assert(views(kept@) =~= views(k).push(before[i as int]));
            }
            i = i + 1;
        }
        assert(before.subrange(0, before.len() as int) =~= before);
        self.todos = kept;
        proof {
            lemma_filter_parts_valid(before, |t: TodoView| !t.completed, self.next_id);
            lemma_active_has_none_completed(before);
        }
        count
    }

    /// The number of todos still open.
    pub fn active_count(&self) -> (r: usize)
        ensures
            r == active_of(self@).len(),
    {
        let mut count: usize = 0;
        let mut i: usize = 0;
        while i < self.todos.len()
            invariant
                i <= self.todos.len(),
                count == active_of(self@.subrange(0, i as int)).len(),
                count <= i,
            decreases self.todos.len() - i,
        {
            let ghost prefix = self@.subrange(0, i as int);
            assert(self@.subrange(0, i + 1) =~= prefix.push(self@[i as int]));
            proof {
                lemma_filter_push(prefix, self@[i as int], |t: TodoView| !t.completed);
            }
            if !self.todos[i].completed {
                count = count + 1;
            }
            i = i + 1;
        }
        assert(self@.subrange(0, self@.len() as int) =~= self@);
        count
    }

    /// The number of completed todos.
    pub fn completed_count(&self) -> (r: usize)
        ensures
            r == completed_of(self@).len(),
    {
        let mut count: usize = 0;
        let mut i: usize = 0;
        while i < self.todos.len()
            invariant
                i <= self.todos.len(),
                count == completed_of(self@.subrange(0, i as int)).len(),
                count <= i,
            decreases self.todos.len() - i,
        {
            let ghost prefix = self@.subrange(0, i as int);
            assert(self@.subrange(0, i + 1) =~= prefix.push(self@[i as int]));
            proof {
                lemma_filter_push(prefix, self@[i as int], |t: TodoView| t.completed);
            }
            if self.todos[i].completed {
                count = count + 1;
            }
            i = i + 1;
        }
        assert(self@.subrange(0, self@.len() as int) =~= self@);
        count
    }

    /// Every distinct tag that some todo carries, each once.
    pub fn all_tags(&self) -> (r: Vec<String>)
        ensures
            string_views(r@).no_duplicates(),
            forall|tag: Seq<char>| string_views(r@).contains(tag) <==> tagged(self@, tag),
    {
        let mut r: Vec<String> = Vec::new();
        let mut i: usize = 0;
        while i < self.todos.len()
            invariant
                i <= self.todos.len(),
                string_views(r@).no_duplicates(),
                forall|tag: Seq<char>|
                    string_views(r@).contains(tag) <==> tagged_within(self@, i as int, 0, tag),
            decreases self.todos.len() - i,
        {
            let tags = &self.todos[i].tags;
            let mut j: usize = 0;
            while j < tags.len()
                invariant
                    i < self.todos.len(),
                    tags == self.todos@[i as int].tags,
                    j <= tags.len(),
                    string_views(r@).no_duplicates(),
                    forall|tag: Seq<char>|
                        string_views(r@).contains(tag) <==> tagged_within(self@, i as int, j as int, tag),
                decreases tags.len() - j,
            {
                let ghost before = string_views(r@);
                let ghost x = tags@[j as int]@;
                if !holds_string(&r, tags[j].as_str()) {
                    r.push(tags[j].clone());
                    assert(string_views(r@) =~= before.push(x));
                    assert(string_views(r@)[before.len() as int] == x);
                    assert forall|y: Seq<char>| before.contains(y) implies string_views(r@).contains(y) by {
                        let k = choose|k: int| 0 <= k < before.len() && before[k] == y;
                        assert(string_views(r@)[k] == y);
                    }
                }
                assert(string_views(r@).contains(x));
                assert(self@[i as int].tags[j as int] == x);
                assert forall|tag: Seq<char>|
                    string_views(r@).contains(tag) <==> tagged_within(self@, i as int, j + 1, tag) by {
                    if tagged_within(self@, i as int, j + 1, tag) && !tagged_within(self@, i as int, j as int, tag) {
                        let m = choose|m: int| 0 <= m < j + 1 && self@[i as int].tags[m] == tag;
                        assert(m == j);
                    }
                    if tagged_within(self@, i as int, j as int, tag) && !(exists|k: int|
                        0 <= k < i && #[trigger] self@[k].tags.contains(tag)) {
                        let m = choose|m: int| 0 <= m < j && self@[i as int].tags[m] == tag;
                        assert(self@[i as int].tags[m] == tag);
                    }
                    if string_views(r@).contains(tag) && tag != x {
                        assert(before.contains(tag));
                        assert(tagged_within(self@, i as int, j as int, tag));
                        assert(tagged_within(self@, i as int, j + 1, tag));
                    }
                    if string_views(r@).contains(tag) && tag == x {
                        assert(tagged_within(self@, i as int, j + 1, tag));
                    }
                    if tagged_within(self@, i as int, j as int, tag) {
                        assert(before.contains(tag));
                        assert(string_views(r@).contains(tag));
                    }
                }
                j = j + 1;
            }
            assert forall|tag: Seq<char>|
                tagged_within(self@, i as int, j as int, tag) <==> tagged_within(self@, i + 1, 0, tag) by {
                if tagged_within(self@, i as int, j as int, tag) {
                    if !(exists|k: int| 0 <= k < i && #[trigger] self@[k].tags.contains(tag)) {
                        let m = choose|m: int| 0 <= m < j && self@[i as int].tags[m] == tag;
                        assert(self@[i as int].tags.contains(tag));
                    }
                }
                if tagged_within(self@, i + 1, 0, tag) {
                    let k = choose|k: int| 0 <= k < i + 1 && #[trigger] self@[k].tags.contains(tag);
                    if k == i {
                        let m = choose|m: int| 0 <= m < self@[k].tags.len() && self@[k].tags[m] == tag;
                        assert(self@[i as int].tags[m] == tag);
                    }
                }
            }
            i = i + 1;
        }
        r
    }

    /// The todos and the id counter, to be stored as one snapshot.
    pub fn to_parts(&self) -> (r: (Vec<Todo>, usize))
        ensures
            views(r.0@) == self@,
            r.1 == self.next_id_spec(),
    {
        let mut v: Vec<Todo> = Vec::new();
        let mut i: usize = 0;
        while i < self.todos.len()
            invariant
                i <= self.todos.len(),
                views(v@) == self@.subrange(0, i as int),
            decreases self.todos.len() - i,
        {
            let ghost before = views(v@);
            v.push(self.todos[i].duplicate());
            assert(views(v@) =~= before.push(self@[i as int]));
            assert(self@.subrange(0, i + 1) =~= self@.subrange(0, i as int).push(self@[i as int]));
            i = i + 1;
        }
        assert(self@.subrange(0, self@.len() as int) =~= self@);
        (v, self.next_id)
    }

    /// Rebuilds a list from stored todos and id counter; `None` where two todos share an id
    /// or an id is not below the counter.
    pub fn from_parts(todos: Vec<Todo>, next_id: usize) -> (r: Option<TodoList>)
        ensures
            r is Some <==> parts_valid(views(todos@), next_id),
            r is Some ==> r->0.wf() && r->0@ == views(todos@) && r->0.next_id_spec() == next_id,
    {
        let ghost s = views(todos@);
        let mut i: usize = 0;
        while i < todos.len()
            invariant
                s == views(todos@),
                i <= todos.len(),
                forall|k: int| 0 <= k < i ==> #[trigger] s[k].id < next_id,
                forall|k: int, m: int| 0 <= k < i && 0 <= m < s.len() && k != m ==> s[k].id != s[m].id,
            decreases todos.len() - i,
        {
            if todos[i].id >= next_id {
                assert(!(s[i as int].id < next_id));
                return None;
            }
            let mut j: usize = 0;
            while j < todos.len()
                invariant
                    s == views(todos@),
                    i < todos.len(),
                    j <= todos.len(),
                    forall|m: int| 0 <= m < j && m != i ==> s[m].id != s[i as int].id,
                decreases todos.len() - j,
            {
                if j != i && todos[j].id == todos[i].id {
                    assert(s[j as int].id == s[i as int].id);
                    return None;
                }
                j = j + 1;
            }
            i = i + 1;
        }
        Some(TodoList { todos, next_id })
    }

    /// The list restored from a loaded snapshot; an empty list where loading failed or the
    /// snapshot is not consistent.
    pub fn from_loaded(loaded: Result<(Vec<Todo>, usize), StorageError>) -> (r: TodoList)
        ensures
            r.wf(),
            match loaded {
                Ok((todos, next_id)) if parts_valid(views(todos@), next_id) => r@ == views(todos@)
                    && r.next_id_spec() == next_id,
                _ => r@ == Seq::<TodoView>::empty() && r.next_id_spec() == 1,
            },
    {
        match loaded {
            Ok((todos, next_id)) => match TodoList::from_parts(todos, next_id) {
                Some(list) => list,
                None => TodoList::new(),
            },
            Err(_) => TodoList::new(),
        }
    }

    /// A well-formed list's own parts are accepted by `from_parts`, which then rebuilds the
    /// same todos and the same id counter: a stored snapshot loads back unchanged.
    pub proof fn lemma_parts_round_trip(&self)
        requires
            self.wf(),
        ensures
            parts_valid(self@, self.next_id_spec()),
    {
    }

    /// The number of todos.
    pub fn total_count(&self) -> (r: usize)
        ensures
            r == self@.len(),
    {
        self.todos.len()
    }
}

/// Filtering keeps ids unique and below any bound they were below.
pub proof fn lemma_filter_parts_valid(
    s: Seq<TodoView>,
    pred: spec_fn(TodoView) -> bool,
    next_id: usize,
)
    requires
        parts_valid(s, next_id),
    ensures
        parts_valid(s.filter(pred), next_id),
    decreases s.len(),
{
    reveal(Seq::filter);
    if s.len() > 0 {
        let d = s.drop_last();
        lemma_filter_parts_valid(d, pred, next_id);
        let f = d.filter(pred);
        assert forall|j: int| 0 <= j < f.len() implies f[j].id != s.last().id by {
            assert(f.contains(f[j]));
            d.lemma_filter_contains_rev(pred, f[j]);
            let k = choose|k: int| 0 <= k < d.len() && d[k] == f[j];
            assert(s[k] == d[k]);
        }
    }
}

/// No todo that `active_of` keeps is completed.
pub proof fn lemma_active_has_none_completed(s: Seq<TodoView>)
    ensures
        completed_of(active_of(s)).len() == 0,
{
    broadcast use vstd::seq_lib::group_filter_ensures;

    let a = active_of(s);
    assert(a.all(|x: TodoView| !x.completed));
    a.lemma_all_neg_filter_empty(|t: TodoView| t.completed);
}

/// A reorder changes order values only, keeps them distinct if they were, and keeps them
/// a permutation of `1..=n` if they were one.
pub proof fn lemma_reorder_keeps_order_sets(s: Seq<TodoView>, source_id: usize, target_id: usize)
    requires
        ids_unique(s),
        reorder_valid(s, source_id, target_id),
    ensures
        reordered(s, source_id, target_id).len() == s.len(),
        forall|i: int|
            0 <= i < s.len() ==> #[trigger] reordered(s, source_id, target_id)[i].id == s[i].id,
        forall|n: usize| parts_valid(s, n) ==> parts_valid(reordered(s, source_id, target_id), n),
        forall|n: usize|
            orders_below(s, n) ==> orders_below(reordered(s, source_id, target_id), n),
        orders_distinct(s) ==> orders_distinct(reordered(s, source_id, target_id)),
        dense(s) ==> dense(reordered(s, source_id, target_id)),
{
    let r = reordered(s, source_id, target_id);
    let ps = index_of(s, source_id);
    let pt = index_of(s, target_id);
    let so = s[ps].order;
    let to = s[pt].order;
    assert forall|i: int| 0 <= i < s.len() implies (s[i].id == source_id <==> i == ps) by {
        lemma_index_of(s, i);
    }
    assert(s[pt].id == target_id);
    if orders_distinct(s) {
        assert forall|i: int, j: int|
            0 <= i < r.len() && 0 <= j < r.len() && i != j implies r[i].order != r[j].order by {
            if i != ps {
                assert(s[i].order != s[ps].order);
            }
            if j != ps {
                assert(s[j].order != s[ps].order);
            }
            if i != pt {
                assert(s[i].order != s[pt].order);
            }
            if j != pt {
                assert(s[j].order != s[pt].order);
            }
            assert(s[i].order != s[j].order);
        }
    }
    assert forall|n: usize| orders_below(s, n) implies orders_below(r, n) by {
        assert(s[ps].order < n);
        assert(s[pt].order < n);
        assert forall|i: int| 0 <= i < r.len() implies #[trigger] r[i].order < n by {
            assert(s[i].order < n);
        }
    }
    if dense(s) {
        assert(1 <= s[ps].order <= s.len());
        assert(1 <= s[pt].order <= s.len());
        assert forall|i: int| 0 <= i < r.len() implies 1 <= #[trigger] r[i].order <= r.len() by {
            assert(1 <= s[i].order <= s.len());
        }
    }
}

} // verus!
