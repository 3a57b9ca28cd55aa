//! Areas of the screen and how one is split into rows.

use vstd::prelude::*;

use ratatui::layout::{Constraint, Direction, Layout, Rect};

verus! {

/// A rectangle of the screen, in cells.
#[derive(Debug, Clone, Copy, PartialEq, Eq, Structural)]
pub struct Area {
    pub x: u16,
    pub y: u16,
    pub width: u16,
    pub height: u16,
}

/// How high a row is to be.
#[derive(Debug, Clone, Copy, PartialEq, Eq, Structural)]
pub enum Share {
    /// So many hundredths of the whole.
    Percentage(u16),
    /// At least so many cells.
    Min(u16),
}

/// Whether `row` lies within an area and is as wide as the area.
pub open spec fn is_row_of(row: Area, area: Area) -> bool {
    &&& row.x == area.x
    &&& row.width == area.width
    &&& area.y <= row.y
    &&& row.y + row.height <= area.y + area.height
}

/// Whether each area ends at or above the beginning of those behind it.
pub open spec fn top_to_bottom(areas: Seq<Area>) -> bool {
    forall|i: int, j: int|
        #![trigger areas[i], areas[j]]
        0 <= i < j < areas.len() ==> areas[i].y + areas[i].height <= areas[j].y
}

/// Whether `Layout::split` of `ratatui` can answer with these rows where it is
/// to split an area by these shares. There may be several such answers.
pub uninterp spec fn can_split_into(area: Area, shares: Seq<Share>, rows: Seq<Area>) -> bool;

/// Splits an area into rows with `Layout::split` of `ratatui`, one row for
/// each share. Each row lies within the area and is as wide as the area. The
/// rows lie from top to bottom: by default there is no overlap between them.
/// The solver holds to that more strongly than to any share, though not at all
/// costs, so it is claimed of up to a hundred rows, whose other wishes together
/// weigh less. Where in the area a row begins and how high it is is left open:
/// the solver walks hash maps, and which answer of those that are possible for
/// the area and the shares ([`can_split_into`]) it gives can depend on their
/// order.
#[verifier::external_body]
pub(crate) fn split_rows(area: Area, shares: &Vec<Share>) -> (r: Vec<Area>)
    ensures
        can_split_into(area, shares@, r@),
        r@.len() == shares@.len(),
        forall|i: int| 0 <= i < r@.len() ==> is_row_of(#[trigger] r@[i], area),
        shares@.len() <= 100 ==> top_to_bottom(r@),
{
    let whole = Rect { x: area.x, y: area.y, width: area.width, height: area.height };
    let constraints = shares.iter().map(|share| match share {
        Share::Percentage(p) => Constraint::Percentage(*p),
        Share::Min(m) => Constraint::Min(*m),
    });
    let layout = Layout::default().direction(Direction::Vertical).constraints(constraints);
    let rows = layout.split(whole);
    rows.iter().map(|r| Area { x: r.x, y: r.y, width: r.width, height: r.height }).collect()
}

} // verus!
