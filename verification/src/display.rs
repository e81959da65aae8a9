//! What the render tick does with the snapshots: a bounded history between
//! the worker's pace and the display's, and the height of a bar.

use vstd::prelude::*;
use crate::errors::{BufferOp, Error};
use crate::ring_buffer::RingBuffer;

verus! {

/// The number of snapshots that the history holds.
pub const HISTORY: usize = 16;

/// The largest number of bins that the display has labels for.
pub const MAX_BINS: usize = 31;

/// The number of cells in a column of the graph.
pub const COLUMN_CELLS: usize = 30;

/// The magnitude that one cell of a column stands for.
pub const CELL_MAGNITUDE: usize = 100;

/// Whether the display can show the number of bins asked for.
pub fn bins_displayable(bins: Option<usize>) -> (answer: bool)
    ensures
        answer == match bins {
            Some(asked) => asked <= MAX_BINS,
            None => true,
        },
{
    match bins {
        Some(asked) => asked <= MAX_BINS,
        None => true,
    }
}

/// What is queued once `polled` has joined `queue`: an empty snapshot and
/// no snapshot join nothing.
pub open spec fn joined(queue: Seq<Vec<usize>>, polled: Option<Vec<usize>>) -> Seq<Vec<usize>> {
    match polled {
        Some(snapshot) => if snapshot@.len() > 0 {
            queue.push(snapshot)
        } else {
            queue
        },
        None => queue,
    }
}

/// One render tick. A snapshot that was polled joins the history, unless it
/// is empty; the oldest in the history then becomes the one on display.
/// Where nothing is queued the display keeps what it shows. A snapshot
/// that finds the history full is refused, and nothing changes.
pub fn render_tick(
    history: &mut RingBuffer<Vec<usize>>,
    polled: Option<Vec<usize>>,
    shown: &mut Vec<usize>,
) -> (result: Result<(), Error>)
    requires
        old(history).wf(),
    ensures
        final(history).wf(),
        final(history).capacity() == old(history).capacity(),
        match result {
            Ok(_) => {
                let queue = joined(old(history)@, polled);
                &&& queue.len() <= old(history).capacity()
                &&& if queue.len() > 0 {
                    *final(shown) == queue[0] && final(history)@ == queue.drop_first()
                } else {
                    *final(shown) == *old(shown) && final(history)@ == old(history)@
                }
            },
            Err(e) => {
                &&& e == Error::BufferOperation(BufferOp::Push)
                &&& joined(old(history)@, polled).len() > old(history).capacity()
                &&& *final(history) == *old(history)
                &&& *final(shown) == *old(shown)
            },
        },
{
    proof {
        history.lemma_wf();
    }
    match polled {
        Some(snapshot) => {
            if snapshot.len() > 0 {
                match history.push(snapshot) {
                    Ok(_) => {},
                    Err(e) => {
                        return Err(e);
                    },
                }
            }
        },
        None => {},
    }
    proof {
        history.lemma_wf();
    }
    match history.pop() {
        Ok(oldest) => {
            *shown = oldest;
        },
        Err(_) => {},
    }
    Ok(())
}

/// The number of cells that the bar of a magnitude fills: none for zero,
/// one for anything below the magnitude of a cell, else one for each whole
/// cell, and the whole column beyond thirty cells.
pub fn bar_cells(magnitude: usize) -> (cells: usize)
    ensures
        cells == if magnitude == 0 {
            0
        } else if magnitude < CELL_MAGNITUDE {
            1
        } else if magnitude > COLUMN_CELLS * CELL_MAGNITUDE {
            COLUMN_CELLS as int
        } else {
            magnitude as int / CELL_MAGNITUDE as int
        },
        cells <= COLUMN_CELLS,
{
    if magnitude > COLUMN_CELLS * CELL_MAGNITUDE {
        COLUMN_CELLS
    } else if magnitude > 0 && magnitude < CELL_MAGNITUDE {
        1
    } else {
        magnitude / CELL_MAGNITUDE
    }
}

} // verus!
