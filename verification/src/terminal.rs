//! What the pointer and the keys do to a terminal: selecting, copying,
//! scrolling and pasting.
use vstd::prelude::*;

verus! {

/// How far a selection with the pointer is.
#[derive(Debug, Clone, Copy, PartialEq, Eq, Structural)]
pub struct TermSelect {
    /// The button went down over the terminal and has not been let go since.
    pub armed: bool,
    /// The pointer has been dragged since.
    pub dragging: bool,
}

/// What the pointer does in a frame.
#[derive(Debug, Clone, Copy, PartialEq, Eq, Structural)]
pub struct PointerInput {
    /// The button went down.
    pub pressed: bool,
    /// The button is down.
    pub down: bool,
    /// The button was let go.
    pub released: bool,
    /// The pointer has clearly been dragged.
    pub dragging: bool,
    /// Is the pointer over the terminal? Unknown where there is no pointer.
    pub over: Option<bool>,
}

/// What to do with the selection.
#[derive(Debug, Clone, Copy, PartialEq, Eq, Structural)]
pub enum SelectAction {
    Nothing,
    /// Begin a selection at the pointer.
    Start,
    /// Move the end of the selection to the pointer.
    Update,
}

/// No selection under way.
pub open spec fn at_rest() -> TermSelect {
    TermSelect { armed: false, dragging: false }
}

/// The selection after a frame, and what to do with it.
pub open spec fn select_next(s: TermSelect, p: PointerInput) -> (TermSelect, SelectAction) {
    let dragged = TermSelect { dragging: s.dragging || p.dragging, ..s };
    match p.over {
        None => if !p.down && !p.released {
            (at_rest(), SelectAction::Nothing)
        } else {
            (s, SelectAction::Nothing)
        },
        Some(over) => if p.pressed && over {
            (TermSelect { armed: true, dragging: false }, SelectAction::Start)
        } else if !s.armed {
            (s, SelectAction::Nothing)
        } else if p.down {
            (dragged, if dragged.dragging || over {
                SelectAction::Update
            } else {
                SelectAction::Nothing
            })
        } else if p.released {
            (dragged, if dragged.dragging {
                SelectAction::Update
            } else {
                SelectAction::Nothing
            })
        } else {
            (at_rest(), SelectAction::Nothing)
        },
    }
}

impl TermSelect {
    /// No selection under way.
    pub fn new() -> (r: TermSelect)
        ensures
            r == at_rest(),
    {
        TermSelect { armed: false, dragging: false }
    }

    /// Takes in what the pointer does in a frame. A press over the terminal
    /// begins a selection, which follows the pointer until the button is let go.
    pub fn drive(&mut self, p: PointerInput) -> (r: SelectAction)
        ensures
            (*final(self), r) == select_next(*old(self), p),
    {
        let over = match p.over {
            None => {
                if !p.down && !p.released {
                    self.armed = false;
                    self.dragging = false;
                }
                return SelectAction::Nothing;
            },
            Some(over) => over,
        };
        if p.pressed && over {
            self.armed = true;
            self.dragging = false;
            return SelectAction::Start;
        }
        if !self.armed {
            return SelectAction::Nothing;
        }
        if p.down || p.released {
            if p.dragging {
                self.dragging = true;
            }
            if self.dragging || (p.down && over) {
                return SelectAction::Update;
            }
            return SelectAction::Nothing;
        }
        self.armed = false;
        self.dragging = false;
        SelectAction::Nothing
    }

    /// Takes in that the button was let go, if it was, and says whether to copy
    /// the selection: after a drag, a double or triple click, or where it has
    /// more than one cell. `dragging` says whether the pointer has clearly been
    /// dragged.
    pub fn release(&mut self, released: bool, dragging: bool, multi_click: bool, multi_cell: bool) -> (r:
        bool)
        ensures
            r == (released && old(self).armed && (old(self).dragging || dragging || multi_click
                || multi_cell)),
            *final(self) == if released {
                at_rest()
            } else {
                *old(self)
            },
    {
        if !released {
            return false;
        }
        let armed = self.armed;
        let dragged = self.dragging || dragging;
        self.armed = false;
        self.dragging = false;
        armed && (dragged || multi_click || multi_cell)
    }
}

/// A selection only begins where the button goes down over the terminal, and
/// nothing is copied that was not begun there.
pub proof fn law_selection_begins_over_terminal(s: TermSelect, p: PointerInput)
    ensures
        select_next(s, p).0.armed && !s.armed ==> p.pressed && p.over == Some(true)
            && select_next(s, p).1 == SelectAction::Start,
        select_next(s, p).1 == SelectAction::Update ==> s.armed,
{
}

/// How far one press of a page key scrolls: a screen up or down, where the
/// terminal has scrollback and no other key is held.
pub open spec fn page_scroll_of(
    alt_screen: bool,
    held: bool,
    page_up: bool,
    page_down: bool,
    screen_lines: usize,
) -> Option<int> {
    let lines: int = if screen_lines < 1 {
        1
    } else {
        screen_lines as int
    };
    if alt_screen || held || (!page_up && !page_down) {
        None
    } else if page_up {
        Some(lines)
    } else {
        Some(-lines)
    }
}

/// How far one press of a page key scrolls. `held` says whether the control,
/// alt or command key is held.
pub fn page_scroll(
    alt_screen: bool,
    held: bool,
    page_up: bool,
    page_down: bool,
    screen_lines: usize,
) -> (r: Option<i32>)
    requires
        screen_lines <= i32::MAX,
    ensures
        match r {
            Some(n) => page_scroll_of(alt_screen, held, page_up, page_down, screen_lines) == Some(
                n as int,
            ),
            None => page_scroll_of(alt_screen, held, page_up, page_down, screen_lines) is None,
        },
{
    if alt_screen || held || (!page_up && !page_down) {
        return None;
    }
    let lines: i32 = if screen_lines < 1 {
        1
    } else {
        screen_lines as i32
    };
    if page_up {
        Some(lines)
    } else {
        Some(-lines)
    }
}

/// Where on a scrollbar a click hit.
#[derive(Debug, Clone, Copy, PartialEq, Eq, Structural)]
pub enum BarHit {
    AboveThumb,
    BelowThumb,
    Thumb,
}

/// How far the pointer on a scrollbar scrolls. A drag to line `to` from the top
/// of the history shows that line; a click beside the thumb scrolls by a screen.
pub open spec fn bar_scroll(
    history: usize,
    offset: usize,
    screen_lines: usize,
    drag_to: Option<usize>,
    click: Option<BarHit>,
) -> int {
    match drag_to {
        Some(to) => (if to < history {
            history - to
        } else {
            0int
        }) - offset,
        None => match click {
            Some(BarHit::AboveThumb) => screen_lines as int,
            Some(BarHit::BelowThumb) => -screen_lines,
            _ => 0,
        },
    }
}

/// How far the pointer and the wheel on a scrollbar scroll; nothing where there
/// is no history. Turning the wheel forward by a line looks one line newer.
pub open spec fn scrollbar_delta_of(
    history: usize,
    offset: usize,
    screen_lines: usize,
    drag_to: Option<usize>,
    click: Option<BarHit>,
    wheel_lines: i32,
) -> int {
    if history == 0 {
        0
    } else {
        bar_scroll(history, offset, screen_lines, drag_to, click) - wheel_lines
    }
}

/// How far the pointer and the wheel on a scrollbar scroll. Up is positive;
/// `offset` is how far up the terminal shows now.
pub fn scrollbar_delta(
    history: usize,
    offset: usize,
    screen_lines: usize,
    drag_to: Option<usize>,
    click: Option<BarHit>,
    wheel_lines: i32,
) -> (r: i32)
    requires
        history <= i32::MAX,
        offset <= i32::MAX,
        screen_lines <= i32::MAX,
        i32::MIN <= scrollbar_delta_of(history, offset, screen_lines, drag_to, click, wheel_lines)
            <= i32::MAX,
    ensures
        r == scrollbar_delta_of(history, offset, screen_lines, drag_to, click, wheel_lines),
{
    if history == 0 {
        return 0;
    }
    let base: i64 = match drag_to {
        Some(to) => {
            let want: i64 = if to < history {
                (history - to) as i64
            } else {
                0
            };
            want - offset as i64
        },
        None => match click {
            Some(BarHit::AboveThumb) => screen_lines as i64,
            Some(BarHit::BelowThumb) => -(screen_lines as i64),
            _ => 0,
        },
    };
    (base - wheel_lines as i64) as i32
}

/// A drag never leaves the history.
pub proof fn law_drag_stays_in_history(history: usize, offset: usize, screen_lines: usize, to: usize)
    requires
        history > 0,
        offset <= history,
    ensures
        0 <= offset + scrollbar_delta_of(history, offset, screen_lines, Some(to), None, 0)
            <= history,
{
}

/// Which row and column of the shown screen hold the cursor, where the program
/// has hidden it and it is on the screen.
pub fn hidden_cursor_cell(show_cursor: bool, line: i32, column: usize, display_offset: usize) -> (r:
    Option<(usize, usize)>)
    requires
        line + display_offset <= i32::MAX,
    ensures
        match r {
            Some((row, col)) => !show_cursor && row == line + display_offset && col == column,
            None => show_cursor || line + display_offset < 0,
        },
{
    if show_cursor {
        return None;
    }
    let row: i64 = line as i64 + display_offset as i64;
    if row < 0 {
        None
    } else {
        Some((row as usize, column))
    }
}

/// What to do with a paste while a terminal has the keyboard.
#[derive(Debug, Clone, Copy, PartialEq, Eq, Structural)]
pub struct PasteAction {
    /// Drop the paste that the toolkit saw.
    pub drop_paste: bool,
    /// Send `^V` to the agent.
    pub send: bool,
}

/// What to do with a paste. The agent reads the clipboard itself on `^V`, which
/// is sent when the key is let go; nothing is done while a dialog is open or
/// the first prompt is being typed.
pub fn agent_paste(
    dialog_open: bool,
    seeding: bool,
    command: bool,
    shift: bool,
    v_released: bool,
    agent_alive: bool,
) -> (r: PasteAction)
    ensures
        r == if dialog_open || seeding {
            PasteAction { drop_paste: false, send: false }
        } else {
            PasteAction { drop_paste: command && !shift, send: v_released && agent_alive }
        },
{
    if dialog_open || seeding {
        return PasteAction { drop_paste: false, send: false };
    }
    PasteAction { drop_paste: command && !shift, send: v_released && agent_alive }
}

/// A selection follows the pointer from a press over the terminal on: while the button is
/// down it is updated over the terminal, or anywhere once the pointer was dragged; when the
/// button is up again, and was not just released, it is over.
pub proof fn law_selection_follows_pointer(s: TermSelect, p: PointerInput)
    ensures
        p.over == Some(true) && p.pressed ==> select_next(s, p) == (
            TermSelect { armed: true, dragging: false },
            SelectAction::Start,
        ),
        s.armed && p.over is Some && !(p.pressed && p.over->0) && p.down && (s.dragging
            || p.dragging || p.over->0) ==> select_next(s, p).1 == SelectAction::Update,
        s.armed && p.over == Some(false) && p.down && !s.dragging && !p.dragging ==> select_next(
            s,
            p,
        ).1 == SelectAction::Nothing,
        s.armed && p.over is Some && !p.pressed && !p.down && p.released ==> select_next(s, p).0
            == (TermSelect { armed: true, dragging: s.dragging || p.dragging }),
        s.armed && p.over is Some && !p.pressed && !p.down && !p.released ==> select_next(s, p)
            == (TermSelect { armed: false, dragging: false }, SelectAction::Nothing),
        p.over is None && !p.down && !p.released ==> select_next(s, p) == (
            TermSelect { armed: false, dragging: false },
            SelectAction::Nothing,
        ),
{
}

/// A page key scrolls by a screen, up into the history or down out of it, unless the
/// program on the screen has the keys or one is held.
pub proof fn law_page_keys_scroll_a_screen(
    alt_screen: bool,
    held: bool,
    page_up: bool,
    page_down: bool,
    screen_lines: usize,
)
    ensures
        ({
            let n = page_scroll_of(alt_screen, held, page_up, page_down, screen_lines);
            &&& n is Some <==> !alt_screen && !held && (page_up || page_down)
            &&& n is Some && page_up && screen_lines > 0 ==> n == Some(screen_lines as int)
            &&& n is Some && !page_up && screen_lines > 0 ==> n == Some(-(screen_lines as int))
            &&& n is Some && page_up && screen_lines == 0 ==> n == Some(1int)
        }),
{
}

/// The scroll bar leads to where its thumb is dragged, counted from the top of the
/// history; a click above or below the thumb scrolls by a screen; the wheel scrolls
/// against its lines. Without a history nothing scrolls.
pub proof fn law_bar_scrolls_to_thumb(
    history: usize,
    offset: usize,
    screen_lines: usize,
    to: usize,
    wheel_lines: i32,
)
    ensures
        history > 0 && to <= history ==> offset + scrollbar_delta_of(
            history,
            offset,
            screen_lines,
            Some(to),
            None,
            0,
        ) == history - to,
        history > 0 ==> scrollbar_delta_of(
            history,
            offset,
            screen_lines,
            None,
            Some(BarHit::AboveThumb),
            0,
        ) == screen_lines,
        history > 0 ==> scrollbar_delta_of(
            history,
            offset,
            screen_lines,
            None,
            Some(BarHit::BelowThumb),
            0,
        ) == -(screen_lines as int),
        history > 0 ==> scrollbar_delta_of(
            history,
            offset,
            screen_lines,
            None,
            Some(BarHit::Thumb),
            wheel_lines,
        ) == -wheel_lines,
        history > 0 ==> scrollbar_delta_of(history, offset, screen_lines, None, None, wheel_lines)
            == -wheel_lines,
        scrollbar_delta_of(0, offset, screen_lines, Some(to), None, wheel_lines) == 0,
{
}

/// A cursor that the program hides is shown at its cell, further down by what is scrolled
/// back; one that the program shows is left to it.
pub proof fn law_hidden_cursor_is_placed(
    show_cursor: bool,
    line: i32,
    column: usize,
    display_offset: usize,
    r: Option<(usize, usize)>,
)
    requires
        line + display_offset <= i32::MAX,
        call_ensures(hidden_cursor_cell, (show_cursor, line, column, display_offset), r),
    ensures
        show_cursor ==> r is None,
        !show_cursor && line + display_offset < 0 ==> r is None,
        !show_cursor && line + display_offset >= 0 ==> r == Some(
            ((line + display_offset) as usize, column),
        ),
{
}

/// A paste is taken from the terminal and given to the agent only where no dialog is open
/// and nothing is being typed in, and only to an agent that runs.
pub proof fn law_paste_goes_to_agent(
    dialog_open: bool,
    seeding: bool,
    command: bool,
    shift: bool,
    v_released: bool,
    agent_alive: bool,
    r: PasteAction,
)
    requires
        call_ensures(
            agent_paste,
            (dialog_open, seeding, command, shift, v_released, agent_alive),
            r,
        ),
    ensures
        dialog_open || seeding ==> !r.send && !r.drop_paste,
        !dialog_open && !seeding ==> r.send == (v_released && agent_alive),
        !dialog_open && !seeding ==> r.drop_paste == (command && !shift),
{
}

} // verus!
