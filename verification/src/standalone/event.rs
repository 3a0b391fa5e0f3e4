//! The progress events of the standalone downloader and the front ends that receive them.
use vstd::prelude::*;

use std::sync::Arc;

verus! {

/// A progress event.
#[derive(Debug, Clone)]
pub enum Event {
    /// Work on the book page starts.
    StartBook,
    /// Reading the table of contents starts.
    StartParseToc,
    /// The table of contents was read: how many volumes and chapters it lists.
    ParseTocDone { volumes: usize, chapters: usize },
    /// A chapter is done.
    ChapterDone { current: usize, total: usize },
    /// An image is downloaded.
    ImageDone { current: usize, total: usize },
    /// The EPUB was written to `path`.
    BookDone { path: String },
    /// Something went wrong.
    Error { message: String },
}

/// A front end that shows the progress events.
pub trait DownloaderEvent {
    fn on_event(&self, event: Event);
}

/// A callback that passes each event on to a front end.
pub struct EventEmitter<T> {
    /// The front end the events go to.
    pub ui: Arc<T>,
}

impl<T: DownloaderEvent> EventEmitter<T> {
    /// Passes `event` on to the front end.
    pub fn emit(&self, event: Event) {
        self.ui.on_event(event);
    }
}

/// The callback that hands events to `ui`.
pub fn emitter_from<T: DownloaderEvent>(ui: Arc<T>) -> (e: EventEmitter<T>)
    ensures
        e.ui == ui,
{
    EventEmitter { ui }
}

} // verus!
