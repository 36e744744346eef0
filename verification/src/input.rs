//! Which key presses are the viewer's shortcuts.
use vstd::prelude::*;

verus! {

/// Whether a key press copies the selection: Ctrl or Meta (Command) with `c`
/// or `C`. `key` is the code of the key's character.
pub fn is_copy_shortcut(ctrl: bool, meta: bool, key: i32) -> (r: bool)
    ensures
        r == ((ctrl || meta) && (key == 'c' as i32 || key == 'C' as i32)),
{
    (ctrl || meta) && (key == 'c' as i32 || key == 'C' as i32)
}

/// Whether a key press shows or hides the text: the space bar with neither
/// Ctrl, Meta (Command) nor Alt held.
pub fn is_toggle_visibility_shortcut(ctrl: bool, meta: bool, alt: bool, key: i32) -> (r: bool)
    ensures
        r == (!(ctrl || meta || alt) && key == ' ' as i32),
{
    !(ctrl || meta || alt) && key == ' ' as i32
}

} // verus!
