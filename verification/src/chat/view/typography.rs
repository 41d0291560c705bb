//! When the look of the text changed, and rows have to be measured again.

use vstd::prelude::*;

verus! {

/// The state of the look that measurements were taken under.
#[derive(Clone, Copy, Debug, PartialEq, Eq, Structural)]
pub struct TypographyRevision {
    pub typography: u64,
    pub theme: u64,
}

/// The revision after a change of the look.
pub open spec fn changed_revision(current: TypographyRevision, theme: u64) -> TypographyRevision {
    TypographyRevision {
        typography: if current.typography < u64::MAX {
            (current.typography + 1) as u64
        } else {
            u64::MAX
        },
        theme,
    }
}

/// The look in effect, and a change that was seen while drawing and not taken over yet.
#[derive(Clone, Copy, Debug, PartialEq, Eq)]
pub struct TypographyState {
    pub current: TypographyRevision,
    pub pending: Option<TypographyRevision>,
}

impl TypographyState {
    pub fn new(current: TypographyRevision) -> (state: Self)
        ensures
            state == (TypographyState { current, pending: None }),
    {
        TypographyState { current, pending: None }
    }

    /// Looks at a frame. A change is only noted: drawing touches neither rows nor list. The result
    /// says whether the window has to be brought up to date.
    pub fn observe_typography_frame(&mut self, metrics_changed: bool, theme: u64) -> (changed: bool)
        ensures
            changed == (metrics_changed || theme != old(self).current.theme),
            *final(self) == if changed {
                TypographyState {
                    pending: Some(changed_revision(old(self).current, theme)),
                    ..*old(self)
                }
            } else {
                *old(self)
            },
    {
        if !metrics_changed && self.current.theme == theme {
            return false;
        }
        self.pending = Some(
            TypographyRevision { typography: self.current.typography.saturating_add(1), theme },
        );
        true
    }

    /// Takes a noted change over. The result says whether there was one.
    pub fn apply_pending_typography(&mut self) -> (changed: bool)
        ensures
            changed == old(self).pending.is_some(),
            *final(self) == (TypographyState {
                current: match old(self).pending {
                    Some(next) => next,
                    None => old(self).current,
                },
                pending: None,
            }),
    {
        match self.pending {
            Some(next) => {
                self.current = next;
                self.pending = None;
                true
            },
            None => false,
        }
    }
}

/// Measurements that were taken before a change never pass for those after it. (Revisions stop at
/// their largest value.)
pub proof fn changes_tell_measurements_apart(current: TypographyRevision, theme: u64)
    requires
        current.typography < u64::MAX,
    ensures
        changed_revision(current, theme) != current,
        changed_revision(current, theme).typography > current.typography,
{
}

} // verus!
