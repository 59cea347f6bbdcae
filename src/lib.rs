//! The core of a live audio mixing engine: a bounded segment cache, sources
//! that read frames by index, a wall-clock anchored composition timeline and
//! the decisions of the producer that mixes buffers ahead of real time.
pub mod adapter;
mod clock;
pub mod cmp_reg;
pub mod composition;
pub mod http;
pub mod compositor;
pub mod producer;
pub mod segment_store;
pub mod source;
pub mod wav;
