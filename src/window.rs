//! The window's remembered placement: what is saved when the window moves,
//! is resized or closes, and whether the user has sized it by hand.
use vstd::prelude::*;

verus! {

/// The placement saved between runs.
#[derive(PartialEq, Eq, Structural, Clone, Copy, Debug)]
pub struct WindowState {
    pub x: i32,
    pub y: i32,
    pub width: Option<u32>,
    pub height: Option<u32>,
    pub maximized: bool,
}

/// A window event after which the placement is saved.
#[derive(PartialEq, Eq, Structural, Clone, Copy, Debug)]
pub enum WindowEvent {
    Resized,
    Moved,
    CloseRequested,
}

/// Whether the window counts as sized by hand after `event`: a resize while
/// not maximized makes it so, and nothing undoes it.
pub fn resized_by_user(event: WindowEvent, before: bool, maximized: bool) -> (r: bool)
    ensures
        r == (before || (event == WindowEvent::Resized && !maximized)),
{
    before || (event == WindowEvent::Resized && !maximized)
}

/// Whether a saved placement marks the window as sized by hand when restored:
/// it does when it carries both a width and a height.
pub fn restores_size(saved: &WindowState) -> (r: bool)
    ensures
        r == (saved.width is Some && saved.height is Some),
{
    saved.width.is_some() && saved.height.is_some()
}

/// The placement to save. It starts from the saved one, or, with none, from
/// the current position and no size. The maximized flag is the current one;
/// when not maximized, the position is the current one, and so is the size
/// if the user has sized the window by hand.
pub fn state_to_save(
    saved: Option<WindowState>,
    x: i32,
    y: i32,
    width: u32,
    height: u32,
    maximized: bool,
    user_resized: bool,
) -> (r: WindowState)
    ensures
        r.maximized == maximized,
        !maximized ==> r.x == x && r.y == y,
        maximized ==> r.x == (match saved {
            Some(s) => s.x,
            None => x,
        }) && r.y == (match saved {
            Some(s) => s.y,
            None => y,
        }),
        !maximized && user_resized ==> r.width == Some(width) && r.height == Some(height),
        maximized || !user_resized ==> r.width == (match saved {
            Some(s) => s.width,
            None => None,
        }) && r.height == (match saved {
            Some(s) => s.height,
            None => None,
        }),
{
    let mut state = match saved {
        Some(s) => s,
        None => WindowState { x, y, width: None, height: None, maximized: false },
    };
    state.maximized = maximized;
    if !maximized {
        state.x = x;
        state.y = y;
        if user_resized {
            state.width = Some(width);
            state.height = Some(height);
        }
    }
    state
}

} // verus!
