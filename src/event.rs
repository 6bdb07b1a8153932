use vstd::prelude::*;

verus! {

/// A named unit of work that needs a fixed number of packages.
pub struct Idea {
    pub name: String,
    pub num_pkg_required: usize,
}

/// What an idea is, as a value.
pub struct IdeaView {
    pub name: Seq<char>,
    pub num_pkg_required: usize,
}

impl View for Idea {
    type V = IdeaView;

    open spec fn view(&self) -> IdeaView {
        IdeaView { name: self.name@, num_pkg_required: self.num_pkg_required }
    }
}

/// A named unit of resource, consumed by exactly one build.
pub struct Package {
    pub name: String,
}

impl View for Package {
    type V = Seq<char>;

    open spec fn view(&self) -> Seq<char> {
        self.name@
    }
}

/// A message on the shared event queue.
pub enum Event {
    /// A new idea that some idle student may adopt.
    NewIdea(Idea),
    /// A package ready to be used by whoever receives it.
    DownloadComplete(Package),
    /// The termination sentinel.
    OutOfIdeas,
}

/// What an event is, as a value.
pub enum EventView {
    NewIdea(IdeaView),
    DownloadComplete(Seq<char>),
    OutOfIdeas,
}

impl View for Event {
    type V = EventView;

    open spec fn view(&self) -> EventView {
        match self {
            Event::NewIdea(i) => EventView::NewIdea(i@),
            Event::DownloadComplete(p) => EventView::DownloadComplete(p@),
            Event::OutOfIdeas => EventView::OutOfIdeas,
        }
    }
}

/// The views of a sequence of texts.
pub open spec fn texts_view(texts: Seq<String>) -> Seq<Seq<char>> {
    texts.map_values(|s: String| s@)
}

/// Relies on `String::push_str`: the text is appended.
pub assume_specification[ String::push_str ](s: &mut String, string: &str)
    ensures
        final(s)@ == old(s)@ + string@,
;

} // verus!
