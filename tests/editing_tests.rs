use todos::constants::DEFAULT_TAGS;
use todos::editing::{
    due_date_change, due_date_input, edit_outcome, edit_outcome_trimmed, entry_text, shown_tags,
    starts_collapsed, tag_suggestions,
};
use todos::tag_choices::{tag_choices, text_at_most};
use todos::todo::{FilterState, Timestamp};
use todos::visibility::{empty_state_message, items_left_words};

fn strings(v: &[&str]) -> Vec<String> {
    v.iter().map(|s| s.to_string()).collect()
}

#[test]
fn entry_text_trims_and_rejects_blank() {
    assert_eq!(entry_text("  Buy milk \n"), Some("Buy milk".to_string()));
    assert_eq!(entry_text("   "), None);
    assert_eq!(entry_text(""), None);
    assert_eq!(entry_text("x"), Some("x".to_string()));
}

#[test]
fn edits_apply_only_when_changed() {
    assert_eq!(edit_outcome("  new text ", "old"), Some("new text".to_string()));
    assert_eq!(edit_outcome(" old ", "old"), None);
    assert_eq!(edit_outcome("  ", "old"), None);
    assert_eq!(edit_outcome_trimmed("same".to_string(), "same"), None);
    assert_eq!(edit_outcome_trimmed("other".to_string(), "same"), Some("other".to_string()));
    assert_eq!(edit_outcome_trimmed(String::new(), "same"), None);
}

#[test]
fn date_field_gives_midnight_utc() {
    assert_eq!(due_date_input(""), None);
    assert_eq!(due_date_input("2024-03-01"), Some(Timestamp { seconds: 1_709_251_200, nanos: 0 }));
    assert_eq!(due_date_input("1970-01-02"), Some(Timestamp { seconds: 86_400, nanos: 0 }));
    assert_eq!(due_date_input("not a date"), None);
}

#[test]
fn date_changes_only_when_different() {
    let day = Timestamp { seconds: 86_400, nanos: 0 };
    assert_eq!(due_date_change("1970-01-02", Some(day)), None);
    assert_eq!(due_date_change("1970-01-03", Some(day)), Some(Some(Timestamp { seconds: 172_800, nanos: 0 })));
    assert_eq!(due_date_change("", Some(day)), Some(None));
    assert_eq!(due_date_change("", None), None);
}

#[test]
fn collapsed_items_show_two_tags() {
    let tags = strings(&["a", "b", "c", "d"]);
    assert!(starts_collapsed(&tags));
    assert!(!starts_collapsed(&strings(&["a", "b", "c"])));
    assert_eq!(shown_tags(&tags, true, false), strings(&["a", "b"]));
    assert_eq!(shown_tags(&tags, true, true), tags);
    assert_eq!(shown_tags(&tags, false, false), tags);
    assert_eq!(shown_tags(&strings(&["a"]), true, false), strings(&["a"]));
}

#[test]
fn suggestions_skip_tags_in_use() {
    let defaults: Vec<String> = DEFAULT_TAGS.iter().map(|s| s.to_string()).collect();
    let tags = strings(&["Urgent", "home"]);
    assert_eq!(tag_suggestions(&defaults, &tags), strings(&["Work", "Personal", "Shopping"]));
    assert_eq!(tag_suggestions(&defaults, &vec![]), defaults);
}

#[test]
fn tag_choices_are_sorted_and_unique() {
    let defaults: Vec<String> = DEFAULT_TAGS.iter().map(|s| s.to_string()).collect();
    let in_use = strings(&["home", "Work", "Alpha", "home"]);
    assert_eq!(
        tag_choices(&defaults, &in_use),
        strings(&["Alpha", "Personal", "Shopping", "Urgent", "Work", "home"])
    );
    assert!(tag_choices(&vec![], &vec![]).is_empty());
}

#[test]
fn text_order_matches_str_order() {
    let words = ["", "a", "ab", "b", "B", "é", "z", "za"];
    for x in words {
        for y in words {
            assert_eq!(text_at_most(x, y), x <= y, "{} {}", x, y);
        }
    }
}

#[test]
fn empty_list_messages() {
    assert_eq!(empty_state_message(false, "x", true, FilterState::Active), "Add your first todo above! \u{2728}");
    assert_eq!(empty_state_message(true, "milk", true, FilterState::All), "No todos match your search: 'milk'");
    assert_eq!(empty_state_message(true, "", true, FilterState::All), "No todos found with the selected tag.");
    assert_eq!(empty_state_message(true, "", false, FilterState::Active), "All tasks done! \u{1f389}");
    assert_eq!(empty_state_message(true, "", false, FilterState::Completed), "No completed tasks yet.");
    assert_eq!(empty_state_message(true, "", false, FilterState::All), "No tasks match the current filter.");
}

#[test]
fn items_left_wording() {
    assert_eq!(items_left_words(0), "items left");
    assert_eq!(items_left_words(1), "item left");
    assert_eq!(items_left_words(2), "items left");
}
