//! The hand-over between the thread that computes and the loop that plays:
//! one item is staged and handed on before the next one is computed, so
//! that never more than one is in flight.

use crate::spectrogram::Spectrogram;
use vstd::prelude::*;

verus! {

/// What is handed over for one track: its spectrogram, its decoded
/// source and its name.
pub struct PipelineItem<T, S> {
    pub spectrogram: Spectrogram<T>,
    pub source: S,
    pub name: String,
}

/// The stage of the pipeline: room for one item.
pub struct Staging<T, S> {
    slot: Option<PipelineItem<T, S>>,
}

impl<T, S> Staging<T, S> {
    /// The item that is staged, if one is.
    pub closed spec fn staged(&self) -> Option<PipelineItem<T, S>> {
        self.slot
    }

    /// An empty stage.
    pub fn new() -> (r: Staging<T, S>)
        ensures
            r.staged() is None,
    {
        Staging { slot: None }
    }

    /// Tells whether the stage is empty, so that the next item is to be
    /// computed.
    pub fn wants_item(&self) -> (r: bool)
        ensures
            r == self.staged() is None,
    {
        self.slot.is_none()
    }

    /// Puts an item on the empty stage.
    pub fn stage(&mut self, item: PipelineItem<T, S>)
        requires
            old(self).staged() is None,
        ensures
            final(self).staged() == Some(item),
    {
        self.slot = Some(item);
    }

    /// Takes the staged item off the stage to hand it on. The stage is
    /// empty afterwards.
    pub fn deliver(&mut self) -> (r: Option<PipelineItem<T, S>>)
        ensures
            r == old(self).staged(),
            final(self).staged() is None,
    {
        self.slot.take()
    }
}

} // verus!
