//! CSS classes for the interface, with dark mode variants.
use vstd::prelude::*;

use crate::text::same_text;
use crate::constants::{BG_DARK_CLASS, BG_LIGHT_CLASS, PRIMARY_BUTTON_CLASS, SECONDARY_BUTTON_CLASS};

verus! {

/// What `container_class` appends to the background classes.
pub const TRANSITION_CLASSES: &'static str = " transition-colors duration-300";

/// What a disabled button's classes get appended.
pub const DISABLED_CLASSES: &'static str = " opacity-50 cursor-not-allowed";

/// The classes of a card in dark mode.
pub const CARD_DARK_CLASS: &'static str = "bg-gray-800 border-gray-700 shadow-md rounded-lg p-4";

/// The classes of a card in light mode.
pub const CARD_LIGHT_CLASS: &'static str = "bg-white border border-gray-200 shadow-md rounded-lg p-4";

/// The classes of an input in dark mode.
pub const INPUT_DARK_CLASS: &'static str = "bg-gray-700 border-gray-600 text-white rounded p-2 w-full";

/// The classes of an input in light mode.
pub const INPUT_LIGHT_CLASS: &'static str = "bg-white border border-gray-300 text-gray-900 rounded p-2 w-full";

/// The classes of a button: its base classes, followed by the disabled ones where it is disabled.
pub open spec fn button_classes(base: Seq<char>, disabled: bool) -> Seq<char> {
    if disabled {
        base + DISABLED_CLASSES@
    } else {
        base
    }
}

/// The classes of a container element.
pub fn container_class(is_dark_mode: bool) -> (r: String)
    ensures
        r@ == (if is_dark_mode {
            BG_DARK_CLASS@
        } else {
            BG_LIGHT_CLASS@
        }) + TRANSITION_CLASSES@,
{
    let background = if is_dark_mode {
        BG_DARK_CLASS
    } else {
        BG_LIGHT_CLASS
    };
    let mut r = String::from_str(background);
    r.append(TRANSITION_CLASSES);
    r
}

/// The classes of a primary button; the same in both modes.
pub fn primary_button_class(_is_dark_mode: bool, disabled: bool) -> (r: String)
    ensures
        r@ == button_classes(PRIMARY_BUTTON_CLASS@, disabled),
{
    let mut r = String::from_str(PRIMARY_BUTTON_CLASS);
    if disabled {
        r.append(DISABLED_CLASSES);
    }
    r
}

/// The classes of a secondary button; the same in both modes.
pub fn secondary_button_class(_is_dark_mode: bool, disabled: bool) -> (r: String)
    ensures
        r@ == button_classes(SECONDARY_BUTTON_CLASS@, disabled),
{
    let mut r = String::from_str(SECONDARY_BUTTON_CLASS);
    if disabled {
        r.append(DISABLED_CLASSES);
    }
    r
}

/// The classes of a card.
pub fn card_class(is_dark_mode: bool) -> (r: String)
    ensures
        r@ == (if is_dark_mode {
            CARD_DARK_CLASS@
        } else {
            CARD_LIGHT_CLASS@
        }),
{
    if is_dark_mode {
        String::from_str(CARD_DARK_CLASS)
    } else {
        String::from_str(CARD_LIGHT_CLASS)
    }
}

/// The classes of an input element.
pub fn input_class(is_dark_mode: bool) -> (r: String)
    ensures
        r@ == (if is_dark_mode {
            INPUT_DARK_CLASS@
        } else {
            INPUT_LIGHT_CLASS@
        }),
{
    if is_dark_mode {
        String::from_str(INPUT_DARK_CLASS)
    } else {
        String::from_str(INPUT_LIGHT_CLASS)
    }
}

/// The stored name of a theme.
pub fn theme_name(is_dark_mode: bool) -> (r: &'static str)
    ensures
        r@ == (if is_dark_mode {
            "dark"@
        } else {
            "light"@
        }),
{
    if is_dark_mode {
        "dark"
    } else {
        "light"
    }
}

/// Whether a stored theme name selects dark mode; anything but `dark` is light.
pub fn is_dark_theme(name: &str) -> (r: bool)
    ensures
        r == (name@ == "dark"@),
{
    same_text(name, "dark")
}

} // verus!
