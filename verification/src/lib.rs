//! A producer/consumer simulation: generators publish tasks and resources to a
//! shared queue, workers match resources to tasks, and order-independent
//! checksums witness that both sides handled the same items.

use vstd::prelude::*;

pub mod accumulator;
pub mod cache;
pub mod checksum;
pub mod encoding;
pub mod idea;
pub mod laws;
pub mod package;
pub mod partition;
pub mod protocol;
pub mod queue;
pub mod schedule;
pub mod student;

verus! {

/// What travels through the queue.
pub enum Event {
    /// A newly generated idea, to be built by one student.
    NewIdea(idea::Idea),
    /// A newly downloaded package, to be used in one build.
    DownloadComplete(package::Package),
    /// No further ideas come from the generator that sent this.
    OutOfIdeas,
}

/// An event as contracts see it.
pub enum EventView {
    NewIdea(idea::IdeaView),
    DownloadComplete(Seq<char>),
    OutOfIdeas,
}

impl View for Event {
    type V = EventView;

    open spec fn view(&self) -> EventView {
        match self {
            Event::NewIdea(idea) => EventView::NewIdea(idea@),
            Event::DownloadComplete(pkg) => EventView::DownloadComplete(pkg@),
            Event::OutOfIdeas => EventView::OutOfIdeas,
        }
    }
}

} // verus!
