use vstd::prelude::*;

verus! {

/// Key under which the todo snapshot is stored.
pub const TODO_STORAGE_KEY: &'static str = "dioxus-todo-app";

/// Key under which the theme choice is stored.
pub const THEME_STORAGE_KEY: &'static str = "dioxus-todo-app-theme";

/// Background classes with dark mode support.
pub const BG_DARK_CLASS: &'static str = "bg-gray-100 dark:bg-gray-900";

/// Background classes for light mode.
pub const BG_LIGHT_CLASS: &'static str = "";

/// Button classes for primary actions.
pub const PRIMARY_BUTTON_CLASS: &'static str = "rounded px-2 py-1 text-white bg-blue-500 hover:bg-blue-600";

/// Button classes for secondary actions.
pub const SECONDARY_BUTTON_CLASS: &'static str = "rounded px-2 py-1 text-gray-700 bg-gray-200 hover:bg-gray-300 dark:text-white dark:bg-gray-600 dark:hover:bg-gray-700";

/// Tags offered on every todo.
pub const DEFAULT_TAGS: [&'static str; 4] = ["Work", "Personal", "Urgent", "Shopping"];

/// Maximum length for todo text.
pub const MAX_TODO_TEXT_LENGTH: usize = 280;

/// Maximum number of tags per todo.
pub const MAX_TAGS_PER_TODO: usize = 5;

/// Application name.
pub const APP_NAME: &'static str = "Dioxus Todo App";

/// Application version.
pub const APP_VERSION: &'static str = "0.1.0";

} // verus!
