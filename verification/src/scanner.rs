//! The episode scanner: it carves one episode after another out of the text
//! that is left, always forward, until no complete episode block remains.

use vstd::prelude::*;
use crate::novel::{episode_views, Episode, EpisodeView};
use crate::search::{
    is_first_occurrence, lemma_first_occurrence_at_start, lemma_first_occurrence_extends,
    lemma_occurs_in_tail, occurs, occurs_at,
};
use crate::text::{between, between_spec, lemma_between_found, lemma_between_shape, lemma_cut_shape};

verus! {

/// Opens an episode's heading.
pub const TITLE_OPEN: &'static str = "<span style=\"font-size:large\">";

/// Closes an episode's heading.
pub const TITLE_CLOSE: &'static str = "</span>";

/// Opens an episode's body.
pub const BODY_OPEN: &'static str = "<div class=\"honbun\">";

/// Closes an episode's body.
pub const BODY_CLOSE: &'static str = "</div>\n";

/// The first complete episode block of `s` and what follows it: the text
/// between the heading markers, then the text between the body markers in
/// what follows the heading. Nothing where either pair is incomplete.
pub open spec fn find_episode_spec(s: Seq<char>) -> Option<(EpisodeView, Seq<char>)> {
    match between_spec(s, TITLE_OPEN@, TITLE_CLOSE@) {
        None => None,
        Some((title, after_title)) => match between_spec(after_title, BODY_OPEN@, BODY_CLOSE@) {
            None => None,
            Some((body, rest)) => Some((EpisodeView { title, body }, rest)),
        },
    }
}

/// All episodes of `s`, in document order: the first complete block, then
/// those of what follows it.
pub open spec fn episodes_spec(s: Seq<char>) -> Seq<EpisodeView>
    decreases s.len(),
    via episodes_spec_decreases
{
    match find_episode_spec(s) {
        None => Seq::empty(),
        Some((e, rest)) => seq![e] + episodes_spec(rest),
    }
}

#[via_fn]
proof fn episodes_spec_decreases(s: Seq<char>) {
    lemma_find_episode_advances(s);
}

/// An episode block lies in the text in this order: heading markers around
/// the title, then body markers around the body, then the remainder. The
/// remainder is a proper suffix of the text.
pub proof fn lemma_find_episode_advances(s: Seq<char>)
    ensures
        find_episode_spec(s) matches Some((e, rest)) ==> {
            &&& rest.len() < s.len()
            &&& rest == s.subrange(s.len() - rest.len(), s.len() as int)
            &&& exists|pre: Seq<char>, gap: Seq<char>|
                #![trigger pre + TITLE_OPEN@ + e.title + TITLE_CLOSE@ + gap]
                s == pre + TITLE_OPEN@ + e.title + TITLE_CLOSE@ + gap + BODY_OPEN@ + e.body
                    + BODY_CLOSE@ + rest
        },
{
    if let Some((e, rest)) = find_episode_spec(s) {
        reveal_strlit("<span style=\"font-size:large\">");
        lemma_between_shape(s, TITLE_OPEN@, TITLE_CLOSE@);
        let (title, after_title) = between_spec(s, TITLE_OPEN@, TITLE_CLOSE@).unwrap();
        lemma_between_shape(after_title, BODY_OPEN@, BODY_CLOSE@);
        let pre = choose|pre: Seq<char>|
            s == pre + TITLE_OPEN@ + (title + TITLE_CLOSE@ + after_title);
        let gap = choose|gap: Seq<char>|
            after_title == gap + BODY_OPEN@ + (e.body + BODY_CLOSE@ + rest);
        assert(s =~= pre + TITLE_OPEN@ + e.title + TITLE_CLOSE@ + gap + BODY_OPEN@ + e.body
            + BODY_CLOSE@ + rest);
        assert(rest =~= s.subrange(s.len() - rest.len(), s.len() as int));
    }
}

/// An episode block as it stands in a document: the title between the
/// heading markers, at once followed by the body between the body markers.
pub open spec fn episode_block(title: Seq<char>, body: Seq<char>) -> Seq<char> {
    TITLE_OPEN@ + title + TITLE_CLOSE@ + (BODY_OPEN@ + body + BODY_CLOSE@)
}

/// A title and a body that their closing markers end: in the title followed
/// by the heading's closing marker, that marker occurs nowhere earlier, and
/// likewise for the body.
pub open spec fn closes_cleanly(title: Seq<char>, body: Seq<char>) -> bool {
    &&& is_first_occurrence(title + TITLE_CLOSE@, TITLE_CLOSE@, title.len() as int)
    &&& is_first_occurrence(body + BODY_CLOSE@, BODY_CLOSE@, body.len() as int)
}

/// A text that begins with an episode block yields that block's title and
/// body, and the scan goes on right after the block.
pub proof fn lemma_block_is_found(title: Seq<char>, body: Seq<char>, tail: Seq<char>)
    requires
        closes_cleanly(title, body),
    ensures
        find_episode_spec(episode_block(title, body) + tail) == Some(
            (EpisodeView { title, body }, tail),
        ),
        episodes_spec(episode_block(title, body) + tail) == seq![EpisodeView { title, body }]
            + episodes_spec(tail),
{
    let s = episode_block(title, body) + tail;
    let after_title = BODY_OPEN@ + body + BODY_CLOSE@ + tail;
    let empty = Seq::<char>::empty();
    assert(s =~= empty + TITLE_OPEN@ + (title + TITLE_CLOSE@ + after_title));
    assert(s =~= TITLE_OPEN@ + (title + TITLE_CLOSE@ + after_title));
    lemma_first_occurrence_at_start(TITLE_OPEN@, title + TITLE_CLOSE@ + after_title);
    lemma_first_occurrence_extends(title + TITLE_CLOSE@, TITLE_CLOSE@, title.len() as int, after_title);
    lemma_between_found(empty, TITLE_OPEN@, title, TITLE_CLOSE@, after_title);
    assert(after_title =~= empty + BODY_OPEN@ + (body + BODY_CLOSE@ + tail));
    assert(after_title =~= BODY_OPEN@ + (body + BODY_CLOSE@ + tail));
    lemma_first_occurrence_at_start(BODY_OPEN@, body + BODY_CLOSE@ + tail);
    lemma_first_occurrence_extends(body + BODY_CLOSE@, BODY_CLOSE@, body.len() as int, tail);
    lemma_between_found(empty, BODY_OPEN@, body, BODY_CLOSE@, tail);
}

/// Two episode blocks in a row, followed by a text without a complete block,
/// scan to exactly those two episodes, in the order in which they stand.
pub proof fn lemma_two_blocks(
    title1: Seq<char>,
    body1: Seq<char>,
    title2: Seq<char>,
    body2: Seq<char>,
    tail: Seq<char>,
)
    requires
        closes_cleanly(title1, body1),
        closes_cleanly(title2, body2),
        find_episode_spec(tail) is None,
    ensures
        episodes_spec(episode_block(title1, body1) + (episode_block(title2, body2) + tail))
            == seq![
            EpisodeView { title: title1, body: body1 },
            EpisodeView { title: title2, body: body2 },
        ],
{
    lemma_block_is_found(title1, body1, episode_block(title2, body2) + tail);
    lemma_block_is_found(title2, body2, tail);
    assert(episodes_spec(tail) =~= Seq::<EpisodeView>::empty());
    assert(seq![EpisodeView { title: title1, body: body1 }] + (seq![
        EpisodeView { title: title2, body: body2 },
    ] + Seq::<EpisodeView>::empty()) =~= seq![
        EpisodeView { title: title1, body: body1 },
        EpisodeView { title: title2, body: body2 },
    ]);
}

/// A text in which no body is ever closed holds no episode, whatever
/// headings it holds.
pub proof fn lemma_unclosed_body_ends_scan(s: Seq<char>)
    requires
        !occurs(s, BODY_CLOSE@),
    ensures
        find_episode_spec(s) is None,
        episodes_spec(s) == Seq::<EpisodeView>::empty(),
{
    lemma_cut_shape(s, TITLE_OPEN@);
    if let Some((title, after_title)) = between_spec(s, TITLE_OPEN@, TITLE_CLOSE@) {
        lemma_tail_of_between(s, TITLE_OPEN@, TITLE_CLOSE@);
        if let Some((body, rest)) = between_spec(after_title, BODY_OPEN@, BODY_CLOSE@) {
            lemma_between_shape(after_title, BODY_OPEN@, BODY_CLOSE@);
            let pre = choose|pre: Seq<char>|
                after_title == pre + BODY_OPEN@ + (body + BODY_CLOSE@ + rest);
            let at = (pre.len() + BODY_OPEN@.len() + body.len()) as int;
            assert(after_title.subrange(at, at + BODY_CLOSE@.len()) =~= BODY_CLOSE@);
            assert(occurs_at(after_title, BODY_CLOSE@, at));
            let from = s.len() - after_title.len();
            lemma_occurs_in_tail(s, from, BODY_CLOSE@);
        }
    }
}

/// After the last complete block of a text, a heading whose body is never
/// closed adds no episode: the scan yields the complete blocks and ends.
pub proof fn lemma_dangling_block_adds_nothing(s: Seq<char>)
    requires
        find_episode_spec(s) matches Some((e, rest)) && !occurs(rest, BODY_CLOSE@),
    ensures
        episodes_spec(s) == seq![find_episode_spec(s).unwrap().0],
{
    let (e, rest) = find_episode_spec(s).unwrap();
    lemma_unclosed_body_ends_scan(rest);
    assert(seq![e] + Seq::<EpisodeView>::empty() =~= seq![e]);
}

/// The remainder that `between_spec` returns is the end of the text.
proof fn lemma_tail_of_between(text: Seq<char>, start: Seq<char>, end: Seq<char>)
    ensures
        between_spec(text, start, end) matches Some((_, rest)) ==> rest.len() <= text.len()
            && rest == text.subrange(text.len() - rest.len(), text.len() as int),
{
    if let Some((mid, rest)) = between_spec(text, start, end) {
        lemma_between_shape(text, start, end);
        let pre = choose|pre: Seq<char>| text == pre + start + (mid + end + rest);
        assert(rest =~= text.subrange(text.len() - rest.len(), text.len() as int));
    }
}

/// Carves the first complete episode block out of `s`: the episode, and the
/// text that follows its body. Nothing where no complete block is left.
pub fn find_episode<'a>(s: &'a str) -> (r: Option<(Episode<'a>, &'a str)>)
    ensures
        match find_episode_spec(s@) {
            Some((e, rest)) => r matches Some((ep, tail)) && ep@ == e && tail@ == rest,
            None => r is None,
        },
{
    match between(s, TITLE_OPEN, TITLE_CLOSE) {
        None => None,
        Some((title, rest)) => match between(rest, BODY_OPEN, BODY_CLOSE) {
            None => None,
            Some((body, rest)) => Some((Episode::new(title, body), rest)),
        },
    }
}

/// A forward-only cursor over the episodes of a text.
pub struct EpisodeFinder<'a>(&'a str);

impl<'a> View for EpisodeFinder<'a> {
    type V = Seq<char>;

    /// The text that has not been scanned yet.
    closed spec fn view(&self) -> Seq<char> {
        self.0@
    }
}

impl<'a> EpisodeFinder<'a> {
    /// A scanner at the start of `s`.
    pub fn new(s: &'a str) -> (f: EpisodeFinder<'a>)
        ensures
            f@ == s@,
    {
        EpisodeFinder(s)
    }

    /// The text that has not been scanned yet.
    pub fn remaining(&self) -> (s: &'a str)
        ensures
            s@ == self@,
    {
        self.0
    }

    /// Yields the next episode and moves past it; yields nothing, and stays
    /// where it is, once no complete episode block is left.
    pub fn next(&mut self) -> (r: Option<Episode<'a>>)
        ensures
            match find_episode_spec(old(self)@) {
                Some((e, rest)) => r matches Some(ep) && ep@ == e && final(self)@ == rest,
                None => r is None && final(self)@ == old(self)@,
            },
    {
        match find_episode(self.0) {
            None => None,
            Some((value, rest)) => {
                self.0 = rest;
                Some(value)
            },
        }
    }

    /// Drains the scanner: every episode that is left, in document order.
    pub fn collect(self) -> (v: Vec<Episode<'a>>)
        ensures
            episode_views(v@) == episodes_spec(self@),
    {
        let mut finder = self;
        let mut v: Vec<Episode<'a>> = Vec::new();
        loop
            invariant
                episode_views(v@) + episodes_spec(finder@) == episodes_spec(self@),
            decreases finder@.len(),
        {
            proof {
                lemma_find_episode_advances(finder@);
            }
            let ghost before = v@;
            match finder.next() {
                None => {
                    assert(episode_views(v@) + Seq::<EpisodeView>::empty() =~= episode_views(v@));
                    return v;
                },
                Some(e) => {
                    v.push(e);
                    assert(episode_views(v@) =~= episode_views(before) + seq![e@]);
                    assert((episode_views(before) + seq![e@]) + episodes_spec(finder@)
                        =~= episode_views(before) + (seq![e@] + episodes_spec(finder@)));
                },
            }
        }
    }
}

} // verus!
