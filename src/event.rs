//! The events that reach the orchestrating thread.
use vstd::prelude::*;

verus! {

/// What the terminal reported, as far as the pager's decisions go.
pub enum InputKind {
    /// A key was pressed.
    Key,
    /// The terminal now has this many columns and rows.
    Resized { cols: usize, rows: usize },
    /// Any other input (mouse, paste, focus).
    Other,
}

/// One event: a worker's news about its stream, or terminal input.
pub enum Event {
    /// Bytes read from the stream of the source with this index.
    Received(usize, Vec<u8>),
    /// The stream of the source with this index has ended.
    Loaded(usize),
    /// Reading the stream of the source with this index failed.
    Failed(usize, String),
    /// Bytes read from the progress stream.
    ProgressUpdated(Vec<u8>),
    /// Terminal input.
    Input(InputKind),
}

} // verus!
