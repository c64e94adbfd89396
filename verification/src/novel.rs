//! The scraped data: episodes and the novel that holds them. Every text in
//! them is a view into the scraped document.

use vstd::prelude::*;
use vstd::string::StringExecFns;
use crate::naming::{sanitize, sanitize_spec};

verus! {

/// One chapter: its heading and its raw body markup.
#[derive(Debug, Clone, Copy)]
pub struct Episode<'a> {
    pub title: &'a str,
    pub body: &'a str,
}

/// What an episode holds, as text.
pub ghost struct EpisodeView {
    pub title: Seq<char>,
    pub body: Seq<char>,
}

impl<'a> View for Episode<'a> {
    type V = EpisodeView;

    open spec fn view(&self) -> EpisodeView {
        EpisodeView { title: self.title@, body: self.body@ }
    }
}

impl<'a> Episode<'a> {
    /// An episode with this heading and this body.
    pub fn new(title: &'a str, body: &'a str) -> (e: Episode<'a>)
        ensures
            e.title == title,
            e.body == body,
            e@ == (EpisodeView { title: title@, body: body@ }),
    {
        Episode { title, body }
    }
}

impl<'a> From<(&'a str, &'a str)> for Episode<'a> {
    /// The episode whose heading is the first text and whose body is the
    /// second.
    fn from(t: (&'a str, &'a str)) -> (e: Episode<'a>) {
        Episode::new(t.0, t.1)
    }
}

impl<'a> vstd::std_specs::convert::FromSpecImpl<(&'a str, &'a str)> for Episode<'a> {
    open spec fn obeys_from_spec() -> bool {
        true
    }

    open spec fn from_spec(t: (&'a str, &'a str)) -> Episode<'a> {
        Episode { title: t.0, body: t.1 }
    }
}

/// The views of a sequence of episodes, in the same order.
pub open spec fn episode_views(episodes: Seq<Episode>) -> Seq<EpisodeView> {
    episodes.map_values(|e: Episode| e@)
}

/// A novel: title, author, and the episodes in document order.
#[derive(Debug)]
pub struct Novel<'a> {
    pub title: &'a str,
    pub author: &'a str,
    pub episodes: Vec<Episode<'a>>,
}

/// What a novel holds, as text.
pub ghost struct NovelView {
    pub title: Seq<char>,
    pub author: Seq<char>,
    pub episodes: Seq<EpisodeView>,
}

impl<'a> View for Novel<'a> {
    type V = NovelView;

    open spec fn view(&self) -> NovelView {
        NovelView {
            title: self.title@,
            author: self.author@,
            episodes: episode_views(self.episodes@),
        }
    }
}

impl<'a> Novel<'a> {
    /// The name of the file that the novel is published under.
    pub open spec fn filename_spec(&self) -> Seq<char> {
        "["@ + sanitize_spec(self.author@) + "] "@ + sanitize_spec(self.title@) + ".epub"@
    }

    /// The name of the file that the novel is published under: the author in
    /// square brackets, then the title, both free of reserved characters.
    pub fn make_filename(&self) -> (name: String)
        ensures
            name@ == self.filename_spec(),
    {
        let mut name = String::from_str("[");
        let author = sanitize(self.author);
        name.append(author.as_str());
        name.append("] ");
        let title = sanitize(self.title);
        name.append(title.as_str());
        name.append(".epub");
        name
    }
}

} // verus!
