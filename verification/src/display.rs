//! The viewport calculator.
//!
//! For a given terminal size, [`Display`] decides which contiguous slice of
//! the entry list is on screen and where it starts. The policy keeps the
//! selected entry visible while minimizing scroll jitter: no scrolling while
//! the list fits, none while the selection is near the top, the window
//! pinned to the end while the selection is near the bottom, and the
//! selection centered in between. Drawing itself (colors, bars, the actual
//! terminal writes) is an outside collaborator and takes the visible slice
//! from here.

use vstd::prelude::*;

use crate::entry::{Entry, EntryModel};

verus! {

/// The terminal geometry the viewport is computed for: `w` columns and `h`
/// rows, of which three rows are reserved for the top bar, the bottom bar
/// and a separator.
pub struct Display {
    pub w: usize,
    pub h: usize,
}

/// The number of rows reserved for the bars, not usable for entries.
pub const RESERVED_ROWS: usize = 3;

/// The first visible entry index for a selection at `sel` in a list of
/// `total` entries, with `height` usable rows. Divisions are floor
/// divisions; the asymmetry between the top check (`sel < height / 2`) and
/// the bottom check (`sel > total - height / 2`) is deliberate and kept.
pub open spec fn window_start(sel: int, total: int, height: int) -> int {
    if total <= height {
        0
    } else if sel < height / 2 {
        0
    } else if sel > total - height / 2 {
        total - height
    } else {
        sel - height / 2
    }
}

/// The sub-sequence of `entries` that is on screen when the window starts
/// at `start`: `height` entries from `start` (fewer at the end of the
/// list), or the whole list when it fits.
pub open spec fn visible_slice(entries: Seq<EntryModel>, start: int, height: int) -> Seq<
    EntryModel,
> {
    if entries.len() > height {
        entries.subrange(
            start,
            if entries.len() < start + height {
                entries.len() as int
            } else {
                start + height
            },
        )
    } else {
        entries
    }
}

/// The point of the scrolling policy: whatever the selection and the list
/// size, the window of [`window_start`] keeps the selected entry on screen,
/// and the renderer finds it inside the visible slice at row
/// `sel - window_start`.
pub proof fn lemma_selected_entry_visible(entries: Seq<EntryModel>, sel: int, height: int)
    requires
        0 <= sel < entries.len(),
        height >= 1,
    ensures
        ({
            let start = window_start(sel, entries.len() as int, height);
            let shown = visible_slice(entries, start, height);
            &&& 0 <= start <= sel
            &&& sel < start + height
            &&& 0 <= sel - start < shown.len()
            &&& shown[sel - start] == entries[sel]
        }),
{
    let total = entries.len() as int;
    let start = window_start(sel, total, height);
    assert(0 <= height / 2 <= height);
    assert(0 <= start <= sel && sel < start + height);
    let shown = visible_slice(entries, start, height);
    if total > height {
        assert(shown[sel - start] == entries[sel]);
    }
}

impl Display {
    /// The geometry is usable: at least the reserved rows exist.
    pub open spec fn wf(&self) -> bool {
        self.h >= RESERVED_ROWS
    }

    /// Builds the viewport calculator for a terminal of `w` columns and `h`
    /// rows. The terminal must have more rows than the bars reserve.
    pub fn new(w: usize, h: usize) -> (d: Display)
        requires
            h >= RESERVED_ROWS,
        ensures
            d.w == w,
            d.h == h,
            d.wf(),
    {
        Display { w, h }
    }

    /// The number of rows available for entries.
    pub fn usable_height(&self) -> (r: usize)
        requires
            self.wf(),
        ensures
            r == self.h - RESERVED_ROWS,
    {
        self.h - RESERVED_ROWS
    }

    /// The index of the first entry on screen, per [`window_start`].
    pub fn calculate_display_start(&self, sel_idx: usize, num_entries: usize) -> (r: usize)
        requires
            self.wf(),
        ensures
            r == window_start(
                sel_idx as int,
                num_entries as int,
                self.h - RESERVED_ROWS,
            ),
    {
        let height = self.usable_height();

        if num_entries <= height {
            return 0;
        }

        if sel_idx < height / 2 {
            0
        } else if sel_idx > num_entries - height / 2 {
            num_entries - height
        } else {
            sel_idx - height / 2
        }
    }

    /// Cuts the listing down to the entries on screen, per
    /// [`visible_slice`]: the window starting at `display_start`, or the
    /// whole listing when it fits.
    pub fn get_displayed_entries(&self, display_start: usize, entries: Vec<Entry>) -> (r: Vec<
        Entry,
    >)
        requires
            self.wf(),
            display_start <= entries.len(),
        ensures
            r.deep_view() == visible_slice(
                entries.deep_view(),
                display_start as int,
                self.h - RESERVED_ROWS,
            ),
    {
        let ghost orig = entries.deep_view();
        let height = self.usable_height();
        let mut v = entries;
        if v.len() > height {
            let end = if v.len() - display_start < height {
                v.len()
            } else {
                display_start + height
            };
            v.truncate(end);
            proof {
                assert(v.deep_view() =~= orig.subrange(0, end as int));
            }
            let mut dropped: usize = 0;
            while dropped < display_start
                invariant
                    dropped <= display_start,
                    display_start <= end <= orig.len(),
                    v.deep_view() == orig.subrange(dropped as int, end as int),
                decreases display_start - dropped,
            {
                let ghost before = v.deep_view();
                let _ = v.remove(0);
                proof {
                    assert(v.deep_view() =~= before.drop_first());
                    assert(before.drop_first() =~= orig.subrange(dropped + 1, end as int));
                }
                dropped = dropped + 1;
            }
            v
        } else {
            v
        }
    }
}

} // verus!
