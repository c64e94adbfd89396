//! Assembling a scraped novel into an EPUB book, chapter by chapter, with the
//! `epub_builder` crate. What that crate does is taken on trust, as stated at
//! each item below that calls it; the order and the naming of what is handed
//! to it are verified.

use vstd::prelude::*;
use vstd::string::StringExecFns;
use crate::naming::{decimal_spec, push_decimal};
use crate::novel::Novel;

verus! {

/// `epub_builder::ZipLibrary`, the in-memory archive that a book is written
/// to. Nothing is known of its contents.
#[verifier::external_type_specification]
#[verifier::external_body]
pub struct ExZipLibrary(epub_builder::ZipLibrary);

/// `epub_builder::Error`. A failure of the builder is handed on as it came;
/// nothing is known of what it holds.
#[verifier::external_type_specification]
#[verifier::external_body]
pub struct ExEpubError(epub_builder::Error);

/// A book under assembly: `epub_builder::EpubBuilder` over a `ZipLibrary`.
/// Verus does not look inside; what a book holds is named by `book_title`,
/// `book_authors`, `book_pages` and `book_contents_pages`.
#[verifier::external_body]
pub struct Book {
    inner: epub_builder::EpubBuilder<epub_builder::ZipLibrary>,
}

/// The title in the book's metadata.
pub uninterp spec fn book_title(book: Book) -> Seq<char>;

/// The authors in the book's metadata, in the order in which they were added.
pub uninterp spec fn book_authors(book: Book) -> Seq<Seq<char>>;

/// The pages that were added to the book as content, in the order in which
/// they were added: for each its path in the book, its title, its text, and
/// how it is referenced. A page with the table of contents is not among them.
pub uninterp spec fn book_pages(book: Book) -> Seq<(Seq<char>, Seq<char>, Seq<char>, PageKind)>;

/// Where pages with the table of contents stand in the book: for each such
/// page that was asked for, the number of content pages that come before it.
pub uninterp spec fn book_contents_pages(book: Book) -> Seq<nat>;

/// How a page is referenced in the book's guide.
#[derive(Debug, Clone, Copy, PartialEq, Eq, Structural)]
pub enum PageKind {
    /// The cover page.
    Cover,
    /// The page with title and author.
    TitlePage,
    /// Where the text begins.
    Text,
}

/// Calls `ZipLibrary::new`, which starts an empty in-memory archive or fails.
/// Nothing is claimed of the outcome.
#[verifier::external_body]
fn zip_library_new() -> (r: Result<epub_builder::ZipLibrary, epub_builder::Error>) {
    epub_builder::ZipLibrary::new()
}

/// Calls `EpubBuilder::new`. Claimed: a builder that it returns has an empty
/// title, no author, no content page and no page with the contents.
#[verifier::external_body]
fn builder_new(zip: epub_builder::ZipLibrary) -> (r: Result<Book, epub_builder::Error>)
    ensures
        r matches Ok(book) ==> {
            &&& book_title(book) == Seq::<char>::empty()
            &&& book_authors(book) == Seq::<Seq<char>>::empty()
            &&& book_pages(book) == Seq::<(Seq<char>, Seq<char>, Seq<char>, PageKind)>::empty()
            &&& book_contents_pages(book) == Seq::<nat>::empty()
        },
{
    match epub_builder::EpubBuilder::new(zip) {
        Ok(inner) => Ok(Book { inner }),
        Err(e) => Err(e),
    }
}

/// Calls `EpubBuilder::metadata` with the key `author` or `title`. Claimed:
/// with these keys it succeeds; under `author` a non-empty value is added
/// after the authors there are and an empty value removes them all; under
/// `title` the value replaces the title; nothing else changes.
#[verifier::external_body]
fn builder_metadata(book: &mut Book, key: &str, value: &str) -> (r: Result<
    (),
    epub_builder::Error,
>)
    requires
        key@ == "author"@ || key@ == "title"@,
    ensures
        r is Ok,
        key@ == "author"@ ==> {
            &&& book_authors(*final(book)) == if value@.len() == 0 {
                Seq::<Seq<char>>::empty()
            } else {
                book_authors(*old(book)).push(value@)
            }
            &&& book_title(*final(book)) == book_title(*old(book))
        },
        key@ == "title"@ ==> {
            &&& book_title(*final(book)) == value@
            &&& book_authors(*final(book)) == book_authors(*old(book))
        },
        book_pages(*final(book)) == book_pages(*old(book)),
        book_contents_pages(*final(book)) == book_contents_pages(*old(book)),
{
    match book.inner.metadata(key, value) {
        Ok(_) => Ok(()),
        Err(e) => Err(e),
    }
}

/// Calls `EpubBuilder::add_content` with a page made by `EpubContent::new`,
/// `title` and `reftype`. Claimed, where it succeeds: the page stands after
/// the content pages there are, with this path, title and text, referenced
/// as this kind of page; nothing else changes.
#[verifier::external_body]
fn builder_add_content(book: &mut Book, path: &str, title: &str, text: &str, kind: PageKind) -> (r:
    Result<(), epub_builder::Error>)
    ensures
        r is Ok ==> {
            &&& book_pages(*final(book)) == book_pages(*old(book)).push(
                (path@, title@, text@, kind),
            )
            &&& book_title(*final(book)) == book_title(*old(book))
            &&& book_authors(*final(book)) == book_authors(*old(book))
            &&& book_contents_pages(*final(book)) == book_contents_pages(*old(book))
        },
{
    let reftype = match kind {
        PageKind::Cover => epub_builder::ReferenceType::Cover,
        PageKind::TitlePage => epub_builder::ReferenceType::TitlePage,
        PageKind::Text => epub_builder::ReferenceType::Text,
    };
    let page = epub_builder::EpubContent::new(path, text.as_bytes()).title(title).reftype(reftype);
    match book.inner.add_content(page) {
        Ok(_) => Ok(()),
        Err(e) => Err(e),
    }
}

/// Calls `EpubBuilder::inline_toc`. Claimed: a page with the contents is
/// asked for, to stand after the content pages there are; title, authors and
/// content pages stay as they are.
#[verifier::external_body]
fn builder_inline_toc(book: &mut Book)
    ensures
        book_contents_pages(*final(book)) == book_contents_pages(*old(book)).push(
            book_pages(*old(book)).len(),
        ),
        book_title(*final(book)) == book_title(*old(book)),
        book_authors(*final(book)) == book_authors(*old(book)),
        book_pages(*final(book)) == book_pages(*old(book)),
{
    book.inner.inline_toc();
}

/// Calls `EpubBuilder::generate` into a fresh vector. The bytes hold the
/// time and an identifier made at the call; nothing is claimed of them.
#[verifier::external_body]
fn builder_generate(book: Book) -> (r: Result<Vec<u8>, epub_builder::Error>) {
    let mut bytes: Vec<u8> = Vec::new();
    match book.inner.generate(&mut bytes) {
        Ok(()) => Ok(bytes),
        Err(e) => Err(e),
    }
}

/// The path of the page that holds episode `index`.
pub open spec fn page_path_spec(index: nat) -> Seq<char> {
    decimal_spec(index) + ".html"@
}

/// The path of the page that holds episode `index`: its number and `.html`.
pub fn page_path(index: usize) -> (path: String)
    ensures
        path@ == page_path_spec(index as nat),
{
    let mut path = String::new();
    push_decimal(&mut path, index as u64);
    path.append(".html");
    path
}

/// The authors of a book whose author was set once: the author, or nobody
/// where the name is empty.
pub open spec fn authors_spec(author: Seq<char>) -> Seq<Seq<char>> {
    if author.len() == 0 {
        Seq::empty()
    } else {
        seq![author]
    }
}

impl<'a> Novel<'a> {
    /// The content pages of the novel's book: one for each episode, in
    /// order, numbered from 0, each referenced as text.
    pub open spec fn pages_spec(&self) -> Seq<(Seq<char>, Seq<char>, Seq<char>, PageKind)> {
        Seq::new(
            self.episodes@.len(),
            |i: int|
                (
                    page_path_spec(i as nat),
                    self.episodes@[i].title@,
                    self.episodes@[i].body@,
                    PageKind::Text,
                ),
        )
    }

    /// Assembles the novel into a book: author and title as metadata, one
    /// page for each episode in order, then one page with the contents, after
    /// the last episode. Where `epub_builder` fails, that failure is returned
    /// as it came and nothing more is asked of the builder.
    pub fn to_epub_builder(&self) -> (r: Result<Book, epub_builder::Error>)
        ensures
            r matches Ok(book) ==> {
                &&& book_title(book) == self.title@
                &&& book_authors(book) == authors_spec(self.author@)
                &&& book_pages(book) == self.pages_spec()
                &&& book_contents_pages(book) == seq![self.episodes@.len()]
            },
    {
        let zip = match zip_library_new() {
            Ok(zip) => zip,
            Err(e) => {
                return Err(e);
            },
        };
        let mut book = match builder_new(zip) {
            Ok(book) => book,
            Err(e) => {
                return Err(e);
            },
        };
        if let Err(e) = builder_metadata(&mut book, "author", self.author) {
            return Err(e);
        }
        if let Err(e) = builder_metadata(&mut book, "title", self.title) {
            return Err(e);
        }
        proof {
            reveal_strlit("author");
            reveal_strlit("title");
            assert("author"@[0] != "title"@[0]);
            assert(Seq::<Seq<char>>::empty().push(self.author@) =~= seq![self.author@]);
        }
        let n: usize = self.episodes.len();
        let mut i: usize = 0;
        while i < n
            invariant
                n == self.episodes@.len(),
                i <= n,
                book_title(book) == self.title@,
                book_authors(book) == authors_spec(self.author@),
                book_pages(book) == self.pages_spec().subrange(0, i as int),
                book_contents_pages(book) == Seq::<nat>::empty(),
            decreases n - i,
        {
            let path = page_path(i);
            let episode = &self.episodes[i];
            if let Err(e) = builder_add_content(
                &mut book,
                path.as_str(),
                episode.title,
                episode.body,
                PageKind::Text,
            ) {
                return Err(e);
            }
            assert(book_pages(book) =~= self.pages_spec().subrange(0, i + 1));
            i += 1;
        }
        assert(self.pages_spec().subrange(0, n as int) =~= self.pages_spec());
        builder_inline_toc(&mut book);
        assert(book_contents_pages(book) =~= seq![self.episodes@.len()]);
        Ok(book)
    }
}

impl Book {
    /// Writes the book out as the bytes of an EPUB file, or returns the
    /// failure of `epub_builder` as it came. The bytes hold the time of the
    /// call and a fresh identifier; nothing is stated of them.
    pub fn generate(self) -> (r: Result<Vec<u8>, epub_builder::Error>) {
        builder_generate(self)
    }
}

} // verus!
