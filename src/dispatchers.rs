pub mod concurrent;
pub mod null;
pub mod sync;
