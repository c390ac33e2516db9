//! Verified core of a player for segmented audio streams that shows a
//! wavelet spectrogram of what it plays: the manifest grammar, the queue of
//! discovered segments, the client that hands them out in order, the
//! wavelet transform around its arithmetic, and the hand-over of each
//! computed item to the loop that plays it.

pub mod client;
pub mod manifest;
pub mod number;
pub mod pipeline;
pub mod queue;
pub mod render;
pub mod soundtrack;
pub mod spectrogram;
pub mod text;
pub mod wavelet;
