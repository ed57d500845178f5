//! Placement of the floating toolbar's action menu and of the result card,
//! in physical pixels, and the guard that keeps two selection captures from
//! overlapping.
//!
//! Sizes scaled by the display factor are rounded by the caller; everything
//! here is integer geometry.

use vstd::prelude::*;
use crate::text::concat2;

verus! {

/// Which side of the toolbar the action menu opens on.
#[derive(Clone, Copy, PartialEq, Eq, Structural, Debug)]
pub enum MenuPlacement {
    Above,
    Below,
}

impl MenuPlacement {
    /// `"above"` or `"below"`.
    pub fn name(self) -> (s: String)
        ensures
            s@ == (if self == MenuPlacement::Above {
                "above"@
            } else {
                "below"@
            }),
    {
        match self {
            MenuPlacement::Above => "above".to_owned(),
            MenuPlacement::Below => "below".to_owned(),
        }
    }
}

/// The placement for a flag that says the menu opens above.
pub open spec fn placement_of(above: bool) -> MenuPlacement {
    if above {
        MenuPlacement::Above
    } else {
        MenuPlacement::Below
    }
}

/// The lowest usable row of the work area.
pub open spec fn work_bottom(work_y: i32, work_height: u32, edge: i32) -> int {
    work_y + (work_height as i32) - edge
}

/// The menu opens above when the expanded toolbar would reach past the work
/// area's bottom.
pub open spec fn opens_above(position_y: i32, expanded_height: u32, work_y: i32, work_height: u32, edge: i32) -> bool {
    position_y + (expanded_height as i32) > work_bottom(work_y, work_height, edge)
}

/// The arithmetic of the placement stays within `i32`.
pub open spec fn placement_fits(position_y: i32, expanded_height: u32, work_y: i32, work_height: u32, edge: i32) -> bool {
    &&& i32::MIN <= work_y + (work_height as i32) <= i32::MAX
    &&& i32::MIN <= work_bottom(work_y, work_height, edge) <= i32::MAX
    &&& i32::MIN <= position_y + (expanded_height as i32) <= i32::MAX
}

/// Which side the action menu would open on for a toolbar at `position_y`,
/// given the expanded height, the work area and the edge gap.
pub fn action_menu_placement(
    position_y: i32,
    expanded_height: u32,
    work_y: i32,
    work_height: u32,
    edge: i32,
) -> (p: MenuPlacement)
    requires
        placement_fits(position_y, expanded_height, work_y, work_height, edge),
    ensures
        p == placement_of(opens_above(position_y, expanded_height, work_y, work_height, edge)),
{
    let bottom = work_y + work_height as i32 - edge;
    if position_y + expanded_height as i32 > bottom {
        MenuPlacement::Above
    } else {
        MenuPlacement::Below
    }
}

/// `a.abs_diff(b)`.
pub open spec fn abs_diff(a: u32, b: u32) -> int {
    if a >= b {
        a - b
    } else {
        b - a
    }
}

fn abs_diff_u32(a: u32, b: u32) -> (r: u32)
    ensures
        r == abs_diff(a, b),
{
    if a >= b {
        a - b
    } else {
        b - a
    }
}

/// What closing the menu calls for.
pub enum CloseStep {
    /// The window is not at the expanded height: nothing to resize.
    AlreadyCollapsed { placement: MenuPlacement },
    /// Shrink the window to the toolbar height, and, when the menu was above,
    /// move it down by the difference (see `collapsed_y`).
    Collapse { placement: MenuPlacement },
}

/// What opening the menu calls for.
pub enum OpenStep {
    /// The menu is already open on this side.
    AlreadyOpen { placement: MenuPlacement },
    /// The window is not the toolbar: the menu cannot open.
    Refuse { message: String },
    /// Measure the position and the work area, then call `open_geometry`.
    Measure,
}

/// Whether the action menu is open, and on which side.
pub struct ActionMenu {
    pub open: bool,
    pub above: bool,
}

impl ActionMenu {
    /// A closed menu.
    pub fn new() -> (m: ActionMenu)
        ensures
            !m.open,
            !m.above,
    {
        ActionMenu { open: false, above: false }
    }

    /// Forgets the menu (the toolbar is shown anew or hidden).
    pub fn reset(&mut self)
        ensures
            !final(self).open,
            !final(self).above,
    {
        self.open = false;
        self.above = false;
    }

    /// Starts closing the menu: it is marked closed at once, and the window
    /// is resized only when it is at the expanded height (within 2 px).
    pub fn begin_close(&mut self, height: u32, expanded_height: u32) -> (step: CloseStep)
        ensures
            !final(self).open,
            !final(self).above,
            step == (if abs_diff(height, expanded_height) > 2 {
                CloseStep::AlreadyCollapsed { placement: placement_of(old(self).above) }
            } else {
                CloseStep::Collapse { placement: placement_of(old(self).above) }
            }),
    {
        self.open = false;
        let above = self.above;
        self.above = false;
        let placement = if above {
            MenuPlacement::Above
        } else {
            MenuPlacement::Below
        };
        if abs_diff_u32(height, expanded_height) > 2 {
            CloseStep::AlreadyCollapsed { placement }
        } else {
            CloseStep::Collapse { placement }
        }
    }

    /// Starts opening the menu: nothing to do when it is open, refused unless
    /// the window is at the toolbar height (within 2 px).
    pub fn begin_open(&self, height: u32, toolbar_height: u32) -> (step: OpenStep)
        ensures
            self.open ==> (step == (OpenStep::AlreadyOpen { placement: placement_of(self.above) })),
            !self.open && abs_diff(height, toolbar_height) > 2 ==> (step is Refuse)
                && step->message@ == "Gloss cannot open the action menu in the current view."@,
            !self.open && abs_diff(height, toolbar_height) <= 2 ==> (step == OpenStep::Measure),
    {
        if self.open {
            return OpenStep::AlreadyOpen {
                placement: if self.above {
                    MenuPlacement::Above
                } else {
                    MenuPlacement::Below
                },
            };
        }
        if abs_diff_u32(height, toolbar_height) > 2 {
            return OpenStep::Refuse {
                message: "Gloss cannot open the action menu in the current view.".to_owned(),
            };
        }
        OpenStep::Measure
    }

    /// Records that the menu opened on the given side (before the window is
    /// resized).
    pub fn mark_open(&mut self, placement: MenuPlacement)
        ensures
            final(self).open,
            final(self).above == (placement == MenuPlacement::Above),
    {
        self.open = true;
        self.above = placement == MenuPlacement::Above;
    }

    /// Takes the menu state for the card: returns whether the menu was open
    /// and above, and leaves it closed.
    pub fn take_for_card(&mut self) -> (r: (bool, bool))
        ensures
            r == (old(self).open, old(self).above),
            !final(self).open,
            !final(self).above,
    {
        let r = (self.open, self.above);
        self.open = false;
        self.above = false;
        r
    }
}

/// The toolbar's row once a menu that opened above is closed.
pub open spec fn collapsed_row(position_y: i32, expanded_height: u32, toolbar_height: u32) -> int {
    position_y + (expanded_height as i32) - (toolbar_height as i32)
}

/// The toolbar's row once a menu that opened above is closed.
pub fn collapsed_y(position_y: i32, expanded_height: u32, toolbar_height: u32) -> (y: i32)
    requires
        i32::MIN <= position_y + (expanded_height as i32) <= i32::MAX,
        i32::MIN <= collapsed_row(position_y, expanded_height, toolbar_height) <= i32::MAX,
    ensures
        y == collapsed_row(position_y, expanded_height, toolbar_height),
{
    position_y + expanded_height as i32 - toolbar_height as i32
}

/// The side and row of the expanded menu: above when the expanded toolbar
/// would pass the work area's bottom, the window then moving up so that the
/// toolbar stays put.
pub open spec fn expanded_row(
    position_y: i32,
    expanded_height: u32,
    toolbar_height: u32,
    work_y: i32,
    work_height: u32,
    edge: i32,
) -> int {
    if opens_above(position_y, expanded_height, work_y, work_height, edge) {
        position_y - (expanded_height as i32) + (toolbar_height as i32)
    } else {
        position_y as int
    }
}

/// The side and row of the expanded menu.
pub fn open_geometry(
    position_y: i32,
    expanded_height: u32,
    toolbar_height: u32,
    work_y: i32,
    work_height: u32,
    edge: i32,
) -> (r: (MenuPlacement, i32))
    requires
        placement_fits(position_y, expanded_height, work_y, work_height, edge),
        i32::MIN <= position_y - (expanded_height as i32) <= i32::MAX,
        i32::MIN <= position_y - (expanded_height as i32) + (toolbar_height as i32) <= i32::MAX,
    ensures
        r.0 == placement_of(opens_above(position_y, expanded_height, work_y, work_height, edge)),
        r.1 == expanded_row(position_y, expanded_height, toolbar_height, work_y, work_height, edge),
{
    let placement = action_menu_placement(position_y, expanded_height, work_y, work_height, edge);
    match placement {
        MenuPlacement::Above => (
            placement,
            position_y - expanded_height as i32 + toolbar_height as i32,
        ),
        MenuPlacement::Below => (placement, position_y),
    }
}

/// Opening the menu and closing it again puts the toolbar back where it
/// was. On every input on which `open_geometry` runs: the side recorded by
/// `mark_open` is the side `begin_open` reports while the menu is open and
/// the side `begin_close` reports; a window left at the expanded height is
/// collapsed; and the collapsed row is the toolbar's row before opening (the
/// window moves up by the menu's extra height when it opens above, and down
/// by as much when it closes).
pub proof fn lemma_menu_round_trip(
    position_y: i32,
    expanded_height: u32,
    toolbar_height: u32,
    work_y: i32,
    work_height: u32,
    edge: i32,
)
    requires
        placement_fits(position_y, expanded_height, work_y, work_height, edge),
        i32::MIN <= position_y - (expanded_height as i32) <= i32::MAX,
        i32::MIN <= position_y - (expanded_height as i32) + (toolbar_height as i32) <= i32::MAX,
    ensures
        ({
            let p = placement_of(opens_above(position_y, expanded_height, work_y, work_height, edge));
            let row = expanded_row(position_y, expanded_height, toolbar_height, work_y, work_height, edge);
            &&& placement_of(p == MenuPlacement::Above) == p
            &&& abs_diff(expanded_height, expanded_height) <= 2
            &&& i32::MIN <= row <= i32::MAX
            &&& p == MenuPlacement::Above ==> collapsed_row(row as i32, expanded_height, toolbar_height)
                == position_y
            &&& p == MenuPlacement::Below ==> row == position_y
        }),
{
}

/// The window geometry of the result card.
pub struct CardGeometry {
    pub x: i32,
    pub y: i32,
    pub width: u32,
    pub height: u32,
}

/// `x.clamp(min, max)` with `min <= max`.
pub open spec fn clamp(x: int, min: int, max: int) -> int {
    if x < min {
        min
    } else if x > max {
        max
    } else {
        x
    }
}

/// The larger of two integers.
pub open spec fn max(a: int, b: int) -> int {
    if a >= b {
        a
    } else {
        b
    }
}

/// The smaller of two integers.
pub open spec fn min(a: int, b: int) -> int {
    if a <= b {
        a
    } else {
        b
    }
}

/// What the card is placed from: the toolbar window as it stands, the menu
/// state taken for the card, the scaled sizes and the work area.
pub struct CardInputs {
    pub menu_was_open: bool,
    pub menu_was_above: bool,
    pub x: i32,
    pub y: i32,
    pub width: u32,
    pub height: u32,
    pub toolbar_height: u32,
    pub menu_height: u32,
    pub card_width: u32,
    pub card_height: u32,
    pub work_x: i32,
    pub work_y: i32,
    pub work_width: u32,
    pub work_height: u32,
    pub edge: i32,
}

/// The toolbar's row, moved back down when the menu was open above.
pub open spec fn card_anchor_row(c: CardInputs) -> int {
    if c.menu_was_open && c.menu_was_above && abs_diff(c.height, c.menu_height) <= 2 {
        c.y + ((c.menu_height as i32) - (c.toolbar_height as i32))
    } else {
        c.y as int
    }
}

/// The room left by the edge gaps (`saturating_sub((edge * 2).max(0) as u32)`).
pub open spec fn room(size: u32, edge: i32) -> int {
    let gaps = max(edge * 2, 0);
    if size >= gaps {
        size - gaps
    } else {
        0
    }
}

/// The card's width: the scaled card width, no wider than the work area.
pub open spec fn card_width(c: CardInputs) -> int {
    min(c.card_width as int, room(c.work_width, c.edge))
}

/// The card's height: the scaled card height, no taller than the work area.
pub open spec fn card_height(c: CardInputs) -> int {
    min(c.card_height as int, room(c.work_height, c.edge))
}

/// The card's column: centred under the toolbar, kept inside the work area.
pub open spec fn card_column(c: CardInputs) -> int {
    let w = card_width(c);
    let desired = (c.x + c.width / 2) - w / 2;
    let min_x = c.work_x + c.edge;
    let max_x = c.work_x + (c.work_width as i32) - ((w as u32) as i32) - c.edge;
    clamp((desired as i64) as i32 as int, min_x, max(max_x, min_x))
}

/// The card's row: the toolbar's row, kept inside the work area.
pub open spec fn card_row(c: CardInputs) -> int {
    let h = card_height(c);
    let min_y = c.work_y + c.edge;
    let max_y = c.work_y + (c.work_height as i32) - ((h as u32) as i32) - c.edge;
    clamp(card_anchor_row(c), min_y, max(max_y, min_y))
}

/// The arithmetic of the card's placement stays within `i32`.
pub open spec fn card_fits(c: CardInputs) -> bool {
    &&& i32::MIN <= (c.menu_height as i32) - (c.toolbar_height as i32) <= i32::MAX
    &&& i32::MIN <= card_anchor_row(c) <= i32::MAX
    &&& i32::MIN <= c.edge * 2 <= i32::MAX
    &&& i32::MIN <= c.work_x + c.edge <= i32::MAX
    &&& i32::MIN <= c.work_x + (c.work_width as i32) <= i32::MAX
    &&& i32::MIN <= c.work_x + (c.work_width as i32) - ((card_width(c) as u32) as i32) <= i32::MAX
    &&& i32::MIN <= c.work_x + (c.work_width as i32) - ((card_width(c) as u32) as i32) - c.edge
        <= i32::MAX
    &&& i32::MIN <= c.work_y + c.edge <= i32::MAX
    &&& i32::MIN <= c.work_y + (c.work_height as i32) <= i32::MAX
    &&& i32::MIN <= c.work_y + (c.work_height as i32) - ((card_height(c) as u32) as i32) <= i32::MAX
    &&& i32::MIN <= c.work_y + (c.work_height as i32) - ((card_height(c) as u32) as i32) - c.edge
        <= i32::MAX
}

/// The card lies inside the work area, clear of the edge gaps, whenever the
/// work area is wider and taller than the two gaps.
pub proof fn lemma_card_inside_work_area(c: CardInputs)
    requires
        card_fits(c),
        0 <= c.edge,
        c.work_width <= i32::MAX,
        c.work_height <= i32::MAX,
        c.work_width >= 2 * c.edge,
        c.work_height >= 2 * c.edge,
    ensures
        c.work_x + c.edge <= card_column(c),
        card_column(c) + card_width(c) <= c.work_x + c.work_width - c.edge,
        c.work_y + c.edge <= card_row(c),
        card_row(c) + card_height(c) <= c.work_y + c.work_height - c.edge,
        0 <= card_width(c) <= c.card_width,
        0 <= card_height(c) <= c.card_height,
{
    let w = card_width(c);
    let h = card_height(c);
    assert(0 <= w <= c.work_width - 2 * c.edge);
    assert(0 <= h <= c.work_height - 2 * c.edge);
    assert((w as u32) as i32 == w);
    assert((h as u32) as i32 == h);
    assert((c.work_width as i32) == c.work_width);
    assert((c.work_height as i32) == c.work_height);
}

/// Where the result card goes and how large it is.
pub fn card_geometry(c: &CardInputs) -> (g: CardGeometry)
    requires
        card_fits(*c),
    ensures
        g.width == card_width(*c),
        g.height == card_height(*c),
        g.x == card_column(*c),
        g.y == card_row(*c),
{
    let mut y = c.y;
    if c.menu_was_open && c.menu_was_above && abs_diff_u32(c.height, c.menu_height) <= 2 {
        y = y + (c.menu_height as i32 - c.toolbar_height as i32);
    }
    let doubled = c.edge * 2;
    let gaps: u32 = if doubled > 0 {
        doubled as u32
    } else {
        0
    };
    let max_width = c.work_width.saturating_sub(gaps);
    let max_height = c.work_height.saturating_sub(gaps);
    let width = if c.card_width < max_width {
        c.card_width
    } else {
        max_width
    };
    let height = if c.card_height < max_height {
        c.card_height
    } else {
        max_height
    };
    let center_x = c.x as i64 + c.width as i64 / 2;
    let desired_x = center_x - width as i64 / 2;
    let min_x = c.work_x + c.edge;
    let max_x = c.work_x + c.work_width as i32 - width as i32 - c.edge;
    let min_y = c.work_y + c.edge;
    let max_y = c.work_y + c.work_height as i32 - height as i32 - c.edge;
    let upper_x = if max_x >= min_x {
        max_x
    } else {
        min_x
    };
    let upper_y = if max_y >= min_y {
        max_y
    } else {
        min_y
    };
    let dx = desired_x as i32;
    let x = if dx < min_x {
        min_x
    } else if dx > upper_x {
        upper_x
    } else {
        dx
    };
    let y = if y < min_y {
        min_y
    } else if y > upper_y {
        upper_y
    } else {
        y
    };
    CardGeometry { x, y, width, height }
}

/// Whether a selection capture is running. At most one capture runs at a
/// time: a shortcut pressed while one runs is ignored.
pub struct CaptureSlot {
    busy: bool,
}

/// Held while a selection capture runs; handing it back to its slot ends the
/// capture. Only a slot gives one out.
pub struct CaptureGuard {
    granted: bool,
}

impl CaptureSlot {
    /// Is a capture running?
    pub closed spec fn is_busy(self) -> bool {
        self.busy
    }

    /// The slot once a capture has been asked for: busy, whether or not the
    /// request was granted.
    pub closed spec fn after_acquire(self) -> CaptureSlot {
        CaptureSlot { busy: true }
    }

    /// The slot once the running capture has ended.
    pub closed spec fn after_release(self) -> CaptureSlot {
        CaptureSlot { busy: false }
    }

    /// A slot with no capture running.
    pub fn new() -> (g: CaptureSlot)
        ensures
            !g.is_busy(),
    {
        CaptureSlot { busy: false }
    }
}

impl CaptureGuard {
    /// Starts a capture: a guard when none is running, nothing otherwise.
    pub fn acquire(slot: &mut CaptureSlot) -> (r: Option<CaptureGuard>)
        ensures
            r is Some <==> !old(slot).is_busy(),
            *final(slot) == old(slot).after_acquire(),
    {
        if slot.busy {
            None
        } else {
            slot.busy = true;
            Some(CaptureGuard { granted: true })
        }
    }

    /// Ends the capture that this guard stands for.
    pub fn release(self, slot: &mut CaptureSlot)
        ensures
            *final(slot) == old(slot).after_release(),
    {
        slot.busy = false;
    }
}

/// Two captures never overlap: whatever state the slot is in, once a capture
/// has been asked for, a second request is refused; once the running capture
/// is released, the next request is granted.
pub proof fn lemma_capture_exclusive(slot: CaptureSlot)
    ensures
        slot.after_acquire().is_busy(),
        !slot.after_acquire().after_release().is_busy(),
        !slot.after_release().is_busy(),
{
}

/// How a selection capture ended.
#[derive(Debug)]
pub enum CaptureOutcome {
    /// The selection was read.
    Captured,
    /// Reading failed with this message.
    Failed(String),
    /// The capture task stopped with this error.
    Crashed(String),
    /// The capture did not finish in time.
    TimedOut,
}

/// The error that the overlay shows for a capture outcome, if any.
pub open spec fn capture_error(outcome: CaptureOutcome) -> Option<Seq<char>> {
    match outcome {
        CaptureOutcome::Captured => None,
        CaptureOutcome::Failed(m) => Some(m@),
        CaptureOutcome::Crashed(e) => Some("Windows UI Automation stopped unexpectedly: "@ + e@),
        CaptureOutcome::TimedOut => Some("Selection capture timed out. Try the shortcut again."@),
    }
}

/// The error message of a capture outcome.
pub fn capture_error_message(outcome: CaptureOutcome) -> (r: Option<String>)
    ensures
        match r {
            Some(m) => capture_error(outcome) == Some(m@),
            None => capture_error(outcome) is None,
        },
{
    match outcome {
        CaptureOutcome::Captured => None,
        CaptureOutcome::Failed(m) => Some(m),
        CaptureOutcome::Crashed(e) => Some(
            concat2("Windows UI Automation stopped unexpectedly: ", e.as_str()),
        ),
        CaptureOutcome::TimedOut => Some("Selection capture timed out. Try the shortcut again.".to_owned()),
    }
}

} // verus!
