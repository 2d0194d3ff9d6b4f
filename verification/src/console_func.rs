//! The plotting area: what is left of the terminal once the margins are taken
//! off, and when a change of it is worth publishing.

use crate::consts::{BOTTOM_MARGIN, RIGHT_MARGIN};
use crate::structs::AppConfig;
use vstd::prelude::*;

verus! {

/// A terminal of `rows` by `cols` cells has room for the margins.
pub open spec fn has_room(rows: u32, cols: u32) -> bool {
    rows >= BOTTOM_MARGIN && cols >= RIGHT_MARGIN
}

/// The plotting area of a terminal of `rows` by `cols` cells.
pub open spec fn area_of(rows: u32, cols: u32) -> AppConfig
    recommends
        has_room(rows, cols),
{
    AppConfig {
        term_width: (cols - RIGHT_MARGIN) as u32,
        term_height: (rows - BOTTOM_MARGIN) as u32,
    }
}

/// What the watcher publishes when it sees a terminal of `rows` by `cols`
/// cells after having published `last`: the new plotting area if it differs
/// from `last` in width or height, nothing otherwise.
pub open spec fn published(last: AppConfig, rows: u32, cols: u32) -> Option<AppConfig> {
    if area_of(rows, cols) == last {
        None
    } else {
        Some(area_of(rows, cols))
    }
}

/// Whether a terminal of `rows` by `cols` cells has room for the margins.
pub fn fits_margins(rows: u32, cols: u32) -> (fits: bool)
    ensures
        fits == has_room(rows, cols),
{
    rows >= BOTTOM_MARGIN && cols >= RIGHT_MARGIN
}

/// The plotting area of a terminal of `rows` by `cols` cells: the terminal
/// without its bottom and right margins.
pub fn plot_area(rows: u32, cols: u32) -> (area: AppConfig)
    requires
        has_room(rows, cols),
    ensures
        area == area_of(rows, cols),
{
    AppConfig { term_width: cols - RIGHT_MARGIN, term_height: rows - BOTTOM_MARGIN }
}

/// The watcher of the terminal size. It remembers the plotting area that the
/// renderer currently sees.
#[derive(Debug, Clone, Copy, PartialEq, Eq, Structural)]
pub struct SizeWatcher {
    pub last: AppConfig,
}

impl SizeWatcher {
    /// The watcher at startup, for a terminal of `rows` by `cols` cells. Its
    /// plotting area is the first value that the renderer sees.
    pub fn new(rows: u32, cols: u32) -> (watcher: SizeWatcher)
        requires
            has_room(rows, cols),
        ensures
            watcher.last == area_of(rows, cols),
    {
        SizeWatcher { last: plot_area(rows, cols) }
    }

    /// Takes the terminal size of one poll. Returns the plotting area to
    /// publish, if it differs from the last one in width or height, and
    /// remembers it; returns nothing for an unchanged area.
    pub fn observe(&mut self, rows: u32, cols: u32) -> (publish: Option<AppConfig>)
        requires
            has_room(rows, cols),
        ensures
            publish == published(old(self).last, rows, cols),
            final(self).last == area_of(rows, cols),
    {
        let area = plot_area(rows, cols);
        if area.term_height != self.last.term_height || area.term_width != self.last.term_width {
            self.last = area;
            Some(area)
        } else {
            None
        }
    }
}

/// A poll that finds the plotting area unchanged publishes nothing.
pub proof fn lemma_same_size_publishes_nothing(last: AppConfig, rows: u32, cols: u32)
    requires
        area_of(rows, cols) == last,
    ensures
        published(last, rows, cols).is_none(),
{
}

/// A poll that finds the plotting area changed, in either axis and by however
/// little, publishes the new area once: the next poll of the same terminal
/// size publishes nothing.
pub proof fn lemma_resize_publishes_once(last: AppConfig, rows: u32, cols: u32)
    requires
        area_of(rows, cols).term_width != last.term_width || area_of(rows, cols).term_height
            != last.term_height,
    ensures
        published(last, rows, cols) == Some(area_of(rows, cols)),
        published(area_of(rows, cols), rows, cols).is_none(),
{
}

/// A reading that leaves the same plotting area as the reading before it, at
/// startup or at the poll before, publishes nothing, and the remembered area
/// stays as it was.
pub proof fn lemma_unchanged_reading_publishes_nothing(
    before_rows: u32,
    before_cols: u32,
    rows: u32,
    cols: u32,
)
    requires
        has_room(before_rows, before_cols),
        has_room(rows, cols),
        rows - BOTTOM_MARGIN == before_rows - BOTTOM_MARGIN,
        cols - RIGHT_MARGIN == before_cols - RIGHT_MARGIN,
    ensures
        published(area_of(before_rows, before_cols), rows, cols).is_none(),
        area_of(rows, cols) == area_of(before_rows, before_cols),
{
}

/// A reading that differs from the reading before it, in rows or in columns,
/// publishes its plotting area.
pub proof fn lemma_changed_reading_publishes(
    before_rows: u32,
    before_cols: u32,
    rows: u32,
    cols: u32,
)
    requires
        has_room(before_rows, before_cols),
        has_room(rows, cols),
        rows != before_rows || cols != before_cols,
    ensures
        published(area_of(before_rows, before_cols), rows, cols) == Some(area_of(rows, cols)),
{
}

/// One column more or less publishes exactly one plotting area, one column
/// wider or narrower and as high as before: the next poll of the same
/// terminal size publishes nothing.
pub proof fn lemma_one_column_publishes_once(rows: u32, before_cols: u32, cols: u32)
    requires
        has_room(rows, before_cols),
        has_room(rows, cols),
        cols == before_cols + 1 || cols == before_cols - 1,
    ensures
        published(area_of(rows, before_cols), rows, cols) == Some(
            AppConfig {
                term_width: (cols - RIGHT_MARGIN) as u32,
                term_height: (rows - BOTTOM_MARGIN) as u32,
            },
        ),
        published(area_of(rows, cols), rows, cols).is_none(),
{
    lemma_changed_reading_publishes(rows, before_cols, rows, cols);
}

/// One row more or less publishes exactly one plotting area, one row higher
/// or lower and as wide as before: the next poll of the same terminal size
/// publishes nothing. A change in height alone is enough.
pub proof fn lemma_one_row_publishes_once(before_rows: u32, rows: u32, cols: u32)
    requires
        has_room(before_rows, cols),
        has_room(rows, cols),
        rows == before_rows + 1 || rows == before_rows - 1,
    ensures
        published(area_of(before_rows, cols), rows, cols) == Some(
            AppConfig {
                term_width: (cols - RIGHT_MARGIN) as u32,
                term_height: (rows - BOTTOM_MARGIN) as u32,
            },
        ),
        published(area_of(rows, cols), rows, cols).is_none(),
{
    lemma_changed_reading_publishes(before_rows, cols, rows, cols);
}

} // verus!
