use todos::constants::{BG_DARK_CLASS, PRIMARY_BUTTON_CLASS, SECONDARY_BUTTON_CLASS};
use todos::list::TodoList;
use todos::shortcuts::{shortcut_action, ShortcutAction};
use todos::storage::{StorageError, WebStorage};
use todos::text::{contains_text, same_text};
use todos::theme::{
    card_class, container_class, input_class, is_dark_theme, primary_button_class,
    secondary_button_class, theme_name,
};
use todos::todo::{FilterState, Timestamp, Todo};
use todos::visibility::{is_visible, matches_lowered, matches_search, visible_todos};

fn ids(list: &TodoList) -> Vec<usize> {
    list.all().iter().map(|t| t.id).collect()
}

fn orders(list: &TodoList) -> Vec<usize> {
    list.all().iter().map(|t| t.order).collect()
}

fn texts(list: &TodoList) -> Vec<String> {
    list.all().iter().map(|t| t.text.clone()).collect()
}

fn three() -> TodoList {
    let mut list = TodoList::new();
    list.add("A".to_string());
    list.add("B".to_string());
    list.add("C".to_string());
    list
}

#[test]
fn reorder_moves_down_then_up() {
    let mut list = three();
    assert!(list.reorder(1, 3));
    assert_eq!(ids(&list), vec![2, 3, 1]);
    assert_eq!(orders(&list), vec![1, 2, 3]);
    assert!(list.reorder(3, 2));
    assert_eq!(ids(&list), vec![3, 2, 1]);
    assert_eq!(orders(&list), vec![1, 2, 3]);
}

#[test]
fn reorder_up_inserts_before_target() {
    let mut list = TodoList::new();
    for text in ["w", "x", "y", "z"] {
        list.add(text.to_string());
    }
    assert!(list.reorder(4, 2));
    assert_eq!(ids(&list), vec![1, 4, 2, 3]);
    assert_eq!(orders(&list), vec![1, 2, 3, 4]);
}

#[test]
fn reorder_keeps_orders_dense() {
    let mut list = TodoList::new();
    for text in ["a", "b", "c", "d", "e"] {
        list.add(text.to_string());
    }
    let moves = [(1, 5), (3, 2), (5, 1), (4, 4), (2, 3), (9, 1)];
    for (source, target) in moves {
        list.reorder(source, target);
        let mut o = orders(&list);
        o.sort();
        assert_eq!(o, vec![1, 2, 3, 4, 5]);
    }
}

#[test]
fn reorder_same_id_changes_nothing() {
    let mut list = three();
    list.reorder(1, 3);
    let before = (ids(&list), orders(&list));
    assert!(!list.reorder(2, 2));
    assert_eq!((ids(&list), orders(&list)), before);
}

#[test]
fn reorder_unknown_ids_change_nothing() {
    let mut list = three();
    let before = (ids(&list), orders(&list));
    assert!(!list.reorder(42, 1));
    assert!(!list.reorder(1, 42));
    assert_eq!((ids(&list), orders(&list)), before);
}

#[test]
fn toggle_twice_restores_status() {
    let mut list = three();
    assert!(list.toggle(2));
    assert!(list.get(2).unwrap().completed);
    assert!(list.toggle(2));
    assert!(!list.get(2).unwrap().completed);
    assert!(!list.toggle(7));
    assert!(!list.toggle_completion(7));
}

#[test]
fn clear_completed_counts_and_removes() {
    let mut list = three();
    list.toggle(1);
    list.toggle(3);
    assert_eq!(list.completed_count(), 2);
    assert_eq!(list.clear_completed(), 2);
    assert_eq!(list.completed_count(), 0);
    assert_eq!(ids(&list), vec![2]);
    assert_eq!(list.clear_completed(), 0);
}

#[test]
fn status_filters_split_the_list() {
    let mut list = three();
    list.toggle(2);
    let active: Vec<usize> = list.filtered(FilterState::Active).iter().map(|t| t.id).collect();
    let completed: Vec<usize> = list.filtered(FilterState::Completed).iter().map(|t| t.id).collect();
    assert_eq!(active, vec![1, 3]);
    assert_eq!(completed, vec![2]);
    let everything: Vec<usize> = list.filtered(FilterState::All).iter().map(|t| t.id).collect();
    assert_eq!(everything, ids(&list));
    assert_eq!(list.active_count() + list.completed_count(), list.total_count());
}

#[test]
fn filtered_follows_order_values() {
    let mut list = three();
    list.reorder(3, 1);
    let shown: Vec<usize> = list.filtered(FilterState::All).iter().map(|t| t.id).collect();
    assert_eq!(shown, vec![3, 1, 2]);
}

#[test]
fn parts_round_trip() {
    let mut list = three();
    list.add_tag(1, "home".to_string());
    list.add_tag(3, "work".to_string());
    list.toggle(3);
    list.set_due_date(2, Some(Timestamp { seconds: 1_700_000_000, nanos: 5 }));
    list.remove(2);
    list.reorder(3, 1);
    let (todos, next_id) = list.to_parts();
    assert_eq!(next_id, 4);
    let back = TodoList::from_parts(todos, next_id).unwrap();
    assert_eq!(back.next_id(), list.next_id());
    assert_eq!(ids(&back), ids(&list));
    assert_eq!(orders(&back), orders(&list));
    assert_eq!(texts(&back), texts(&list));
    let mut tags_a = back.all_tags();
    let mut tags_b = list.all_tags();
    tags_a.sort();
    tags_b.sort();
    assert_eq!(tags_a, tags_b);
    assert!(back.get(3).unwrap().completed);
}

#[test]
fn from_parts_rejects_inconsistent_snapshots() {
    let duplicated = vec![Todo::new(1, "a".to_string()), Todo::new(1, "b".to_string())];
    assert!(TodoList::from_parts(duplicated, 5).is_none());
    let stale_counter = vec![Todo::new(1, "a".to_string()), Todo::new(4, "b".to_string())];
    assert!(TodoList::from_parts(stale_counter, 4).is_none());
    let fine = vec![Todo::new(1, "a".to_string()), Todo::new(4, "b".to_string())];
    assert_eq!(TodoList::from_parts(fine, 5).unwrap().total_count(), 2);
}

#[test]
fn from_loaded_falls_back_to_empty() {
    let missing = TodoList::from_loaded(Err(StorageError::NotFound("none".to_string())));
    assert_eq!(missing.total_count(), 0);
    assert_eq!(missing.next_id(), 1);
    let broken = TodoList::from_loaded(Ok((vec![Todo::new(3, "x".to_string())], 2)));
    assert_eq!(broken.total_count(), 0);
    let good = TodoList::from_loaded(Ok((vec![Todo::new(3, "x".to_string())], 9)));
    assert_eq!(good.total_count(), 1);
    assert_eq!(good.next_id(), 9);
}

#[test]
fn ids_are_never_reused() {
    let mut list = three();
    let removed = list.remove(3).unwrap();
    assert_eq!(removed.text, "C");
    assert!(list.remove(3).is_none());
    assert_eq!(list.add("D".to_string()), 4);
    assert_eq!(list.get(4).unwrap().order, 4);
}

#[test]
fn add_tag_twice_keeps_one() {
    let mut list = three();
    assert!(list.add_tag(1, "x".to_string()));
    assert!(list.add_tag(1, "x".to_string()));
    assert_eq!(list.get(1).unwrap().tags, vec!["x".to_string()]);
    assert!(list.remove_tag(1, "absent"));
    assert_eq!(list.get(1).unwrap().tags, vec!["x".to_string()]);
    assert!(!list.remove_tag(8, "x"));
    assert!(!list.add_tag(8, "x".to_string()));
    assert!(list.remove_tag(1, "x"));
    assert!(list.get(1).unwrap().tags.is_empty());
}

#[test]
fn todo_tags_are_a_set() {
    let mut todo = Todo::new(5, "t".to_string());
    todo.add_tag("a".to_string());
    todo.add_tag("b".to_string());
    todo.add_tag("a".to_string());
    assert_eq!(todo.tags, vec!["a".to_string(), "b".to_string()]);
    assert!(todo.has_tag("b"));
    assert!(!todo.has_tag("c"));
    todo.tags.push("a".to_string());
    todo.remove_tag("a");
    assert_eq!(todo.tags, vec!["b".to_string()]);
    let copy = todo.duplicate();
    assert_eq!(copy.tags, todo.tags);
    assert_eq!(copy.order, 5);
}

#[test]
fn all_tags_lists_each_tag_once() {
    let mut list = three();
    list.add_tag(1, "x".to_string());
    list.add_tag(2, "y".to_string());
    list.add_tag(3, "x".to_string());
    let mut tags = list.all_tags();
    tags.sort();
    assert_eq!(tags, vec!["x".to_string(), "y".to_string()]);
    assert!(TodoList::new().all_tags().is_empty());
}

#[test]
fn due_dates_and_text_updates() {
    let mut list = three();
    let when = Timestamp { seconds: 86_400, nanos: 0 };
    assert!(list.set_due_date(1, Some(when)));
    assert_eq!(list.get(1).unwrap().due_date, Some(when));
    assert!(list.set_due_date(1, None));
    assert_eq!(list.get(1).unwrap().due_date, None);
    assert!(!list.set_due_date(9, Some(when)));
    assert!(list.update_text(2, "".to_string()));
    assert_eq!(list.get(2).unwrap().text, "");
    assert!(!list.update_text(9, "z".to_string()));
}

#[test]
fn end_to_end_scenario() {
    let mut list = TodoList::new();
    assert_eq!(list.add("Buy milk".to_string()), 1);
    assert_eq!(list.get(1).unwrap().order, 1);
    assert_eq!(list.add("Walk dog".to_string()), 2);
    assert_eq!(list.get(2).unwrap().order, 2);
    assert_eq!(list.add("Pay bills".to_string()), 3);
    assert_eq!(list.get(3).unwrap().order, 3);
    assert!(list.reorder(1, 3));
    assert_eq!(ids(&list), vec![2, 3, 1]);
    assert_eq!(texts(&list), vec!["Walk dog", "Pay bills", "Buy milk"]);
    list.toggle(2);
    assert_eq!(list.completed_count(), 1);
    assert_eq!(list.clear_completed(), 1);
    assert!(list.get(2).is_none());
    assert_eq!(texts(&list), vec!["Pay bills", "Buy milk"]);
}

#[test]
fn search_ignores_case_in_text_and_tags() {
    let mut todo = Todo::new(1, "Buy Milk".to_string());
    todo.add_tag("Groceries".to_string());
    assert!(matches_search(&todo, ""));
    assert!(matches_search(&todo, "MILK"));
    assert!(matches_search(&todo, "y m"));
    assert!(matches_search(&todo, "grocer"));
    assert!(!matches_search(&todo, "bread"));
    assert!(matches_lowered("buy milk", &vec!["groceries".to_string()], "ceri"));
    assert!(!matches_lowered("buy milk", &vec![], "Milk"));
}

#[test]
fn visibility_combines_status_tag_and_search() {
    let mut list = three();
    list.add_tag(1, "work".to_string());
    list.add_tag(2, "work".to_string());
    list.toggle(2);
    let all = list.all();
    let work = Some("work".to_string());
    let shown: Vec<usize> =
        visible_todos(&all, FilterState::Active, &work, "").iter().map(|t| t.id).collect();
    assert_eq!(shown, vec![1]);
    let shown: Vec<usize> =
        visible_todos(&all, FilterState::All, &None, "WOR").iter().map(|t| t.id).collect();
    assert_eq!(shown, vec![1, 2]);
    let shown: Vec<usize> =
        visible_todos(&all, FilterState::All, &None, "c").iter().map(|t| t.id).collect();
    assert_eq!(shown, vec![3]);
    assert!(!is_visible(&all[2], FilterState::All, &work, ""));
    assert!(is_visible(&all[2], FilterState::Active, &None, "C"));
}

#[test]
fn text_helpers() {
    assert!(same_text("abc", "abc"));
    assert!(!same_text("abc", "abd"));
    assert!(!same_text("ab", "abc"));
    assert!(contains_text("hello world", "o w"));
    assert!(contains_text("hello", ""));
    assert!(!contains_text("hello", "world"));
    assert!(!contains_text("lo", "hello"));
}

#[test]
fn theme_classes() {
    assert_eq!(container_class(true), "bg-gray-100 dark:bg-gray-900 transition-colors duration-300");
    assert_eq!(container_class(false), " transition-colors duration-300");
    assert_eq!(container_class(true), format!("{} transition-colors duration-300", BG_DARK_CLASS));
    assert_eq!(primary_button_class(true, false), PRIMARY_BUTTON_CLASS);
    assert_eq!(
        primary_button_class(false, true),
        "rounded px-2 py-1 text-white bg-blue-500 hover:bg-blue-600 opacity-50 cursor-not-allowed"
    );
    assert_eq!(secondary_button_class(false, false), SECONDARY_BUTTON_CLASS);
    assert_eq!(
        secondary_button_class(true, true),
        format!("{} opacity-50 cursor-not-allowed", SECONDARY_BUTTON_CLASS)
    );
    assert_eq!(card_class(true), "bg-gray-800 border-gray-700 shadow-md rounded-lg p-4");
    assert_eq!(card_class(false), "bg-white border border-gray-200 shadow-md rounded-lg p-4");
    assert_eq!(input_class(true), "bg-gray-700 border-gray-600 text-white rounded p-2 w-full");
    assert_eq!(input_class(false), "bg-white border border-gray-300 text-gray-900 rounded p-2 w-full");
    assert_eq!(theme_name(true), "dark");
    assert_eq!(theme_name(false), "light");
    assert!(is_dark_theme("dark"));
    assert!(!is_dark_theme("light"));
    assert!(!is_dark_theme("Dark"));
}

#[test]
fn keyboard_shortcuts() {
    assert_eq!(shortcut_action(true, "a"), Some(ShortcutAction::SetFilter(FilterState::All)));
    assert_eq!(shortcut_action(true, "c"), Some(ShortcutAction::SetFilter(FilterState::Completed)));
    assert_eq!(shortcut_action(true, "v"), Some(ShortcutAction::SetFilter(FilterState::Active)));
    assert_eq!(shortcut_action(true, "d"), Some(ShortcutAction::ToggleTheme));
    assert_eq!(shortcut_action(false, "a"), None);
    assert_eq!(shortcut_action(true, "x"), None);
}

#[test]
fn storage_errors() {
    assert!(StorageError::NotFound("k".to_string()).is_not_found());
    assert!(!StorageError::DbError("k".to_string()).is_not_found());
    assert!(!StorageError::AccessError.is_not_found());
    let _storage = WebStorage::new();
    assert_eq!(FilterState::default(), FilterState::All);
}
