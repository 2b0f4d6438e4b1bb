//! Texts that can be copied on a touch screen: a long touch selects the whole
//! text and copies it, and a drag in it copies a part.
use crate::text::{is_empty, opt_text, opt_view};
use vstd::prelude::*;
use vstd::string::*;

verus! {

/// Which text is being selected, if any.
#[derive(Debug, Clone, Copy, PartialEq, Eq, Structural)]
pub struct TouchSelect {
    pub selecting: Option<u64>,
    /// Is the whole text still to be selected and copied?
    pub select_all_pending: bool,
}

/// How a text is shown.
#[derive(Debug, Clone, Copy, PartialEq, Eq, Structural)]
pub enum TextMode {
    /// As a label that the mouse can select in.
    Label,
    /// As a field in which a part can be selected.
    Field,
    /// As a label that waits for a long touch.
    Touchable,
}

/// What to do after a text was shown as a field.
pub struct FieldAction {
    /// Select the whole text and give it the focus.
    pub select_all: bool,
    /// Put this on the clipboard.
    pub copy: Option<String>,
    /// Take the focus away.
    pub leave: bool,
}

impl TouchSelect {
    /// Nothing is being selected.
    pub fn new() -> (r: TouchSelect)
        ensures
            r == (TouchSelect { selecting: None, select_all_pending: false }),
    {
        TouchSelect { selecting: None, select_all_pending: false }
    }

    /// How the text `id` is shown.
    pub fn mode(&self, id: u64, touch: bool) -> (r: TextMode)
        ensures
            r == if !touch {
                TextMode::Label
            } else if self.selecting == Some(id) {
                TextMode::Field
            } else {
                TextMode::Touchable
            },
    {
        if !touch {
            return TextMode::Label;
        }
        match self.selecting {
            Some(s) => if s == id {
                TextMode::Field
            } else {
                TextMode::Touchable
            },
            None => TextMode::Touchable,
        }
    }

    /// May a drag scroll the page? Not while a text is being selected.
    pub fn drag_scrolls(&self) -> (r: bool)
        ensures
            r == self.selecting is None,
    {
        self.selecting.is_none()
    }

    /// Takes in a long touch on a text.
    pub fn long_touched(&mut self, id: u64)
        ensures
            *final(self) == (TouchSelect { selecting: Some(id), select_all_pending: true }),
    {
        self.selecting = Some(id);
        self.select_all_pending = true;
    }

    /// Goes on after a text was shown as a field. `dragged` is the part that a
    /// drag selected, if one just ended; `left` says whether the user touched
    /// something else or pressed escape.
    pub fn shown_as_field(&mut self, text: &str, dragged: Option<&str>, left: bool) -> (r: FieldAction)
        ensures
            r.select_all == old(self).select_all_pending,
            opt_text(r.copy) == if old(self).select_all_pending {
                Some(text@)
            } else {
                match opt_view(dragged) {
                    Some(part) => if part.len() > 0 {
                        Some(part)
                    } else {
                        None
                    },
                    None => None,
                }
            },
            r.leave == left,
            *final(self) == (TouchSelect {
                selecting: if left {
                    None
                } else {
                    old(self).selecting
                },
                select_all_pending: false,
            }),
    {
        let select_all = self.select_all_pending;
        let copy = if select_all {
            Some(text.to_owned())
        } else {
            match dragged {
                Some(part) => if is_empty(part) {
                    None
                } else {
                    Some(part.to_owned())
                },
                None => None,
            }
        };
        self.select_all_pending = false;
        if left {
            self.selecting = None;
        }
        FieldAction { select_all, copy, leave: left }
    }
}

/// Without a touch screen every text is a label; with one, only the text that was touched
/// for long is a field, and while there is one a drag does not scroll.
pub proof fn law_touched_text_is_a_field(
    s: TouchSelect,
    id: u64,
    touch: bool,
    mode: TextMode,
    scrolls: bool,
)
    requires
        call_ensures(TouchSelect::mode, (&s, id, touch), mode),
        call_ensures(TouchSelect::drag_scrolls, (&s,), scrolls),
    ensures
        !touch ==> mode == TextMode::Label,
        touch && s.selecting == Some(id) ==> mode == TextMode::Field,
        touch && s.selecting != Some(id) ==> mode == TextMode::Touchable,
        scrolls <==> s.selecting is None,
{
}

} // verus!
