//! What the view does about scrolling and input, decided apart from pixels.

use vstd::prelude::*;

verus! {

/// Which way a wheel gesture goes.
#[derive(Clone, Copy, Debug, PartialEq, Eq, Structural)]
pub enum WheelDirection {
    Up,
    Still,
    Down,
}

/// What a wheel gesture over the messages leads to.
#[derive(Clone, Copy, Debug, PartialEq, Eq, Structural)]
pub enum WheelAction {
    /// The list scrolls by itself, and queued motion is dropped.
    Native,
    Ignore,
    /// The distance is queued, to be travelled frame by frame.
    Ease,
}

/// What a wheel gesture over a row with a viewport of its own leads to.
#[derive(Clone, Copy, Debug, PartialEq, Eq, Structural)]
pub struct NestedScroll {
    /// Whether the viewport follows its end from now on, if that changes.
    pub follow: Option<bool>,
    pub action: WheelAction,
}

/// Motion is eased in an active window only, where the preference asks for it.
pub fn smooth_scroll_animation_enabled(window_active: bool, preference: bool) -> (yes: bool)
    ensures
        yes == (window_active && preference),
{
    window_active && preference
}

/// Whether there is a way to go to the latest row.
pub open spec fn jumps(following_tail: bool, scrollable: bool, at_end: Option<bool>) -> bool {
    !following_tail && scrollable && at_end == Some(false)
}

/// The way to the latest row is offered away from the end of a list that scrolls and does not
/// follow its end, and nowhere else.
pub proof fn the_latest_row_is_offered_away_from_it(
    following_tail: bool,
    scrollable: bool,
    at_end: Option<bool>,
)
    ensures
        jumps(false, true, Some(false)),
        following_tail ==> !jumps(following_tail, scrollable, at_end),
        !scrollable ==> !jumps(following_tail, scrollable, at_end),
        at_end is None ==> !jumps(following_tail, scrollable, at_end),
        at_end == Some(true) ==> !jumps(following_tail, scrollable, at_end),
{
}

/// Whether the button that leads to the latest row is shown.
pub fn jump_visible_now(following_tail: bool, scrollable: bool, at_end: Option<bool>) -> (yes: bool)
    ensures
        yes == (!following_tail && scrollable && at_end == Some(false)),
        yes == jumps(following_tail, scrollable, at_end),
{
    if following_tail || !scrollable {
        return false;
    }
    match at_end {
        Some(at_end) => !at_end,
        None => false,
    }
}

/// What a wheel gesture leads to.
pub open spec fn wheel_leads_to(
    animated: bool,
    precise: bool,
    direction: WheelDirection,
) -> WheelAction {
    if !animated || precise {
        WheelAction::Native
    } else if direction == WheelDirection::Still {
        WheelAction::Ignore
    } else {
        WheelAction::Ease
    }
}

/// Motion is eased where that is wanted and the wheel moves in steps; a wheel that stands still
/// moves nothing then. Otherwise the list scrolls by itself.
pub proof fn stepping_wheels_are_eased(
    animated: bool,
    precise: bool,
    direction: WheelDirection,
)
    ensures
        wheel_leads_to(animated, precise, direction) is Native <==> precise || !animated,
        wheel_leads_to(animated, precise, direction) is Ignore ==> direction is Still,
        animated && !precise && !(direction is Still) ==> wheel_leads_to(
            animated,
            precise,
            direction,
        ) is Ease,
        wheel_leads_to(animated, precise, WheelDirection::Up) == wheel_leads_to(
            animated,
            precise,
            WheelDirection::Down,
        ),
{
}

/// Decides on a wheel gesture over the messages.
pub fn handle_message_scroll_wheel(animated: bool, precise: bool, direction: WheelDirection) -> (action:
    WheelAction)
    ensures
        action == wheel_leads_to(animated, precise, direction),
        action == if !animated || precise {
            WheelAction::Native
        } else if direction == WheelDirection::Still {
            WheelAction::Ignore
        } else {
            WheelAction::Ease
        },
{
    if !animated || precise {
        return WheelAction::Native;
    }
    match direction {
        WheelDirection::Still => WheelAction::Ignore,
        _ => WheelAction::Ease,
    }
}

/// Whether a viewport follows its end after a wheel gesture, if that changes.
pub open spec fn follows(direction: WheelDirection, near_bottom: bool) -> Option<bool> {
    match direction {
        WheelDirection::Up => Some(false),
        WheelDirection::Down => if near_bottom {
            Some(true)
        } else {
            None
        },
        WheelDirection::Still => None,
    }
}

/// Only going up stops a viewport from following its end, and only going down near the end makes
/// it follow again.
pub proof fn viewports_follow_when_told(direction: WheelDirection, near_bottom: bool)
    ensures
        follows(direction, near_bottom) == Some(false) <==> direction is Up,
        follows(direction, near_bottom) == Some(true) <==> direction is Down && near_bottom,
{
}

/// Decides on a wheel gesture over a row with a viewport of its own. Going up hands the viewport to
/// the reader; going down at the end makes it follow its end again.
pub fn replay_nested_scroll(
    animated: bool,
    precise: bool,
    direction: WheelDirection,
    near_bottom: bool,
) -> (scroll: NestedScroll)
    ensures
        scroll.follow == follows(direction, near_bottom),
        scroll.action == wheel_leads_to(animated, precise, direction),
        scroll.follow == match direction {
            WheelDirection::Up => Some(false),
            WheelDirection::Down => if near_bottom {
                Some(true)
            } else {
                None
            },
            WheelDirection::Still => None,
        },
        scroll.action == if !animated || precise {
            WheelAction::Native
        } else if direction == WheelDirection::Still {
            WheelAction::Ignore
        } else {
            WheelAction::Ease
        },
{
    let follow = match direction {
        WheelDirection::Up => Some(false),
        WheelDirection::Down => if near_bottom {
            Some(true)
        } else {
            None
        },
        WheelDirection::Still => None,
    };
    NestedScroll { follow, action: handle_message_scroll_wheel(animated, precise, direction) }
}

/// What keeps the composer from sending.
#[derive(Clone, Copy, Debug, PartialEq, Eq, Structural)]
pub struct ComposerState {
    pub generating: bool,
    pub persistence_pending: bool,
    pub deletion_pending: bool,
    pub shutdown_requested: bool,
    pub input_blank: bool,
    pub selection_available: bool,
}

/// Whether a message can be sent.
pub open spec fn can_send(state: ComposerState) -> bool {
    &&& !state.generating
    &&& !state.persistence_pending
    &&& !state.deletion_pending
    &&& !state.shutdown_requested
    &&& !state.input_blank
    &&& state.selection_available
}

/// Each of the things that keep a message from being sent does so alone, and nothing else does.
pub proof fn one_reason_keeps_from_sending(state: ComposerState)
    ensures
        state.generating ==> !can_send(state),
        state.persistence_pending ==> !can_send(state),
        state.deletion_pending ==> !can_send(state),
        state.shutdown_requested ==> !can_send(state),
        state.input_blank ==> !can_send(state),
        !state.selection_available ==> !can_send(state),
        can_send(
            ComposerState {
                generating: false,
                persistence_pending: false,
                deletion_pending: false,
                shutdown_requested: false,
                input_blank: false,
                selection_available: true,
            },
        ),
{
}

impl ComposerState {
    /// A message can be sent while nothing is under way, there is something to send, and a model to
    /// send it to.
    pub fn send_disabled(&self) -> (yes: bool)
        ensures
            yes == !(!self.generating && !self.persistence_pending && !self.deletion_pending
                && !self.shutdown_requested && !self.input_blank && self.selection_available),
            yes == !can_send(*self),
    {
        self.generating || self.persistence_pending || self.deletion_pending
            || self.shutdown_requested || self.input_blank || !self.selection_available
    }
}

/// The key of the text that an empty composer shows.
pub fn placeholder_key(references_enabled: bool) -> (key: &'static str)
    ensures
        key@ == if references_enabled {
            "reference_picker.composer_placeholder"@
        } else {
            "chat.placeholder"@
        },
{
    if references_enabled {
        "reference_picker.composer_placeholder"
    } else {
        "chat.placeholder"
    }
}

} // verus!
