//! A pager core for live, unbounded byte streams: line decoding, the
//! wrapped-height model, the screen-fit policy and the pager's lifecycle.
pub mod decode;
pub mod event;
pub mod fit;
pub mod lifecycle;
pub mod line;
pub mod pager;
pub mod progress;
pub mod source;
