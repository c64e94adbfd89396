//! The document scraper: title, author, then every episode, in one pass from
//! the start of the document to its end.

use vstd::prelude::*;
use crate::novel::{Novel, NovelView};
use crate::scanner::{episodes_spec, EpisodeFinder};
use crate::search::occurs;
use crate::text::{
    between, between_spec, decides, lemma_between_none, skip_until, skip_until_spec, skip_while, skip_while_spec,
};

verus! {

/// Opens the document's title.
pub const DOC_TITLE_OPEN: &'static str = "<title>";

/// Closes the document's title.
pub const DOC_TITLE_CLOSE: &'static str = "</title>";

/// Leads to the author's numeric identifier, which the author's name follows.
pub const AUTHOR_ANCHOR: &'static str = "<a href=//syosetu.org/user/";

/// Opens the author's name, after the identifier.
pub const AUTHOR_OPEN: &'static str = ">";

/// Closes the author's name.
pub const AUTHOR_CLOSE: &'static str = "</a>";

/// A field that every document must hold.
#[derive(Debug, Clone, Copy, PartialEq, Eq, Structural)]
pub enum Field {
    Title,
    AuthorAnchor,
    Author,
}

/// Why a document could not be scraped.
#[derive(Debug, Clone, Copy, PartialEq, Eq, Structural)]
pub enum ScrapeError {
    /// The markers of this field were not found where the scraper looked.
    MissingField(Field),
}

impl ScrapeError {
    /// The field that was not found.
    pub fn field(&self) -> (f: Field)
        ensures
            *self == ScrapeError::MissingField(f),
    {
        match self {
            ScrapeError::MissingField(f) => *f,
        }
    }

    /// A short description of the failure.
    pub fn message(&self) -> (m: &'static str)
        ensures
            m@ == match *self {
                ScrapeError::MissingField(Field::Title) => "Failed to get title."@,
                ScrapeError::MissingField(Field::AuthorAnchor) => "failed to search author."@,
                ScrapeError::MissingField(Field::Author) => "Failed to get author"@,
            },
    {
        match self {
            ScrapeError::MissingField(Field::Title) => "Failed to get title.",
            ScrapeError::MissingField(Field::AuthorAnchor) => "failed to search author.",
            ScrapeError::MissingField(Field::Author) => "Failed to get author",
        }
    }
}

/// `c` is one of the ten decimal digits.
pub open spec fn is_decimal_digit_spec(c: char) -> bool {
    '0' <= c <= '9'
}

/// Whether `c` is one of the ten decimal digits.
#[verifier::when_used_as_spec(is_decimal_digit_spec)]
pub fn is_decimal_digit(c: char) -> (b: bool)
    ensures
        b == is_decimal_digit_spec(c),
{
    '0' <= c && c <= '9'
}

/// The test for a decimal digit, as a predicate on characters.
pub open spec fn decimal_digit() -> spec_fn(char) -> bool {
    |c: char| is_decimal_digit_spec(c)
}

/// What a document scrapes to. The title stands between the title markers;
/// past it, the author anchor is skipped, then the digits of the author's
/// identifier; the author's name stands between the next `>` and `</a>`;
/// the episodes are those of the text that follows. The first field whose
/// markers are missing is the error.
pub open spec fn scrape_spec(doc: Seq<char>) -> Result<NovelView, ScrapeError> {
    match between_spec(doc, DOC_TITLE_OPEN@, DOC_TITLE_CLOSE@) {
        None => Err(ScrapeError::MissingField(Field::Title)),
        Some((title, after_title)) => match skip_until_spec(after_title, AUTHOR_ANCHOR@) {
            None => Err(ScrapeError::MissingField(Field::AuthorAnchor)),
            Some(at_id) => match between_spec(
                skip_while_spec(at_id, decimal_digit()),
                AUTHOR_OPEN@,
                AUTHOR_CLOSE@,
            ) {
                None => Err(ScrapeError::MissingField(Field::Author)),
                Some((author, rest)) => Ok(
                    NovelView { title, author, episodes: episodes_spec(rest) },
                ),
            },
        },
    }
}

/// Each failure names the first field that is missing, and a document fails
/// for no other reason: the title where no text stands between the title
/// markers, the author anchor where a title is followed by none, the author
/// where no name stands between `>` and `</a>` after the identifier.
pub proof fn lemma_scrape_failures(doc: Seq<char>)
    ensures
        scrape_spec(doc) == Err::<NovelView, ScrapeError>(ScrapeError::MissingField(Field::Title))
            <==> between_spec(doc, DOC_TITLE_OPEN@, DOC_TITLE_CLOSE@) is None,
        scrape_spec(doc) == Err::<NovelView, ScrapeError>(
            ScrapeError::MissingField(Field::AuthorAnchor),
        ) <==> (between_spec(doc, DOC_TITLE_OPEN@, DOC_TITLE_CLOSE@) matches Some((_, rest))
            && skip_until_spec(rest, AUTHOR_ANCHOR@) is None),
        scrape_spec(doc) == Err::<NovelView, ScrapeError>(ScrapeError::MissingField(Field::Author))
            <==> (between_spec(doc, DOC_TITLE_OPEN@, DOC_TITLE_CLOSE@) matches Some((_, rest))
            && skip_until_spec(rest, AUTHOR_ANCHOR@) matches Some(at_id) && between_spec(
            skip_while_spec(at_id, decimal_digit()),
            AUTHOR_OPEN@,
            AUTHOR_CLOSE@,
        ) is None),
{
}

/// A document that holds no opening title marker, or no closing one, has no
/// title: it scrapes to the missing title and to no novel.
pub proof fn lemma_scrape_without_title(doc: Seq<char>)
    requires
        !occurs(doc, DOC_TITLE_OPEN@) || !occurs(doc, DOC_TITLE_CLOSE@),
    ensures
        scrape_spec(doc) == Err::<NovelView, ScrapeError>(ScrapeError::MissingField(Field::Title)),
{
    lemma_between_none(doc, DOC_TITLE_OPEN@, DOC_TITLE_CLOSE@);
    if let Some(i) = crate::search::first_index_of(doc, DOC_TITLE_OPEN@) {
        crate::search::lemma_first_index_of(doc, DOC_TITLE_OPEN@);
        let from = i + DOC_TITLE_OPEN@.len();
        if occurs(doc.subrange(from, doc.len() as int), DOC_TITLE_CLOSE@) {
            crate::search::lemma_occurs_in_tail(doc, from, DOC_TITLE_CLOSE@);
        }
    }
}

/// The view of a scrape's outcome.
pub open spec fn outcome_view(r: Result<Novel, ScrapeError>) -> Result<NovelView, ScrapeError> {
    match r {
        Ok(novel) => Ok(novel@),
        Err(e) => Err(e),
    }
}

/// Scrapes one document: the novel it holds, or the first mandatory field
/// that is missing. A document without any complete episode block scrapes to
/// a novel without episodes.
pub fn scrape<'a>(doc: &'a str) -> (r: Result<Novel<'a>, ScrapeError>)
    ensures
        outcome_view(r) == scrape_spec(doc@),
{
    let (title, rest) = match between(doc, DOC_TITLE_OPEN, DOC_TITLE_CLOSE) {
        Some(found) => found,
        None => {
            return Err(ScrapeError::MissingField(Field::Title));
        },
    };
    let rest = match skip_until(rest, AUTHOR_ANCHOR) {
        Some(found) => found,
        None => {
            return Err(ScrapeError::MissingField(Field::AuthorAnchor));
        },
    };
    let ghost at_id = rest@;
    let rest = skip_while(rest, is_decimal_digit);
    proof {
        assert(decides(is_decimal_digit, decimal_digit()));
        assert(rest@ == skip_while_spec(at_id, decimal_digit()));
    }
    let (author, rest) = match between(rest, AUTHOR_OPEN, AUTHOR_CLOSE) {
        Some(found) => found,
        None => {
            return Err(ScrapeError::MissingField(Field::Author));
        },
    };
    let episodes = EpisodeFinder::new(rest).collect();
    Ok(Novel { title, author, episodes })
}

} // verus!
