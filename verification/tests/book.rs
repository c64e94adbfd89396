use hameln_publish::book::page_path;
use hameln_publish::novel::{Episode, Novel};
use std::io::{Cursor, Read};

fn entry(bytes: &[u8], name: &str) -> Option<String> {
    let mut archive = zip::ZipArchive::new(Cursor::new(bytes.to_vec())).unwrap();
    let mut file = archive.by_name(name).ok()?;
    let mut text = String::new();
    file.read_to_string(&mut text).unwrap();
    Some(text)
}

fn names(bytes: &[u8]) -> Vec<String> {
    let archive = zip::ZipArchive::new(Cursor::new(bytes.to_vec())).unwrap();
    let mut names: Vec<String> = archive.file_names().map(|n| n.to_string()).collect();
    names.sort();
    names
}

fn two_episodes() -> Novel<'static> {
    Novel {
        title: "The Title",
        author: "The Author",
        episodes: vec![Episode::new("Ch1", "<p>Body1</p>"), Episode::from(("Ch2", "<p>Body2</p>"))],
    }
}

#[test]
fn page_path_exact() {
    assert_eq!(page_path(0), "0.html");
    assert_eq!(page_path(9), "9.html");
    assert_eq!(page_path(10), "10.html");
    assert_eq!(page_path(123), "123.html");
}

#[test]
fn book_holds_one_page_for_each_episode() {
    let bytes = two_episodes().to_epub_builder().unwrap().generate().unwrap();
    assert_eq!(entry(&bytes, "OEBPS/0.html").as_deref(), Some("<p>Body1</p>"));
    assert_eq!(entry(&bytes, "OEBPS/1.html").as_deref(), Some("<p>Body2</p>"));
    assert_eq!(entry(&bytes, "OEBPS/2.html"), None);
}

#[test]
fn book_lists_pages_in_episode_order() {
    let bytes = two_episodes().to_epub_builder().unwrap().generate().unwrap();
    let opf = entry(&bytes, "OEBPS/content.opf").unwrap();
    let first = opf.find("href=\"0.html\"").unwrap();
    let second = opf.find("href=\"1.html\"").unwrap();
    let contents = opf.find("href=\"toc.xhtml\"").unwrap();
    assert!(first < second);
    assert!(second < contents);
    assert!(opf.contains("<reference type=\"text\" title=\"Ch1\" href=\"0.html\"/>"));
    assert!(opf.contains("<reference type=\"text\" title=\"Ch2\" href=\"1.html\"/>"));
}

#[test]
fn book_holds_title_and_author() {
    let bytes = two_episodes().to_epub_builder().unwrap().generate().unwrap();
    let opf = entry(&bytes, "OEBPS/content.opf").unwrap();
    assert!(opf.contains("<dc:title>The Title</dc:title>"));
    assert!(opf.contains("<dc:creator opf:role=\"aut\">The Author</dc:creator>"));
}

#[test]
fn book_without_author_names_nobody() {
    let novel = Novel { title: "T", author: "", episodes: Vec::new() };
    let bytes = novel.to_epub_builder().unwrap().generate().unwrap();
    let opf = entry(&bytes, "OEBPS/content.opf").unwrap();
    assert!(!opf.contains("<dc:creator"));
    assert!(opf.contains("<dc:title>T</dc:title>"));
}

#[test]
fn book_has_contents_page_with_episode_titles() {
    let bytes = two_episodes().to_epub_builder().unwrap().generate().unwrap();
    let contents = entry(&bytes, "OEBPS/toc.xhtml").unwrap();
    let first = contents.find("Ch1").unwrap();
    let second = contents.find("Ch2").unwrap();
    assert!(first < second);
    assert!(contents.contains("0.html"));
    assert!(contents.contains("1.html"));
}

#[test]
fn book_without_episodes() {
    let novel = Novel { title: "T", author: "A", episodes: Vec::new() };
    let bytes = novel.to_epub_builder().unwrap().generate().unwrap();
    let all = names(&bytes);
    assert!(all.contains(&"mimetype".to_string()));
    assert!(all.contains(&"OEBPS/content.opf".to_string()));
    assert!(all.contains(&"OEBPS/toc.xhtml".to_string()));
    assert!(!all.contains(&"OEBPS/0.html".to_string()));
}

#[test]
fn book_is_a_zip_archive() {
    let bytes = two_episodes().to_epub_builder().unwrap().generate().unwrap();
    assert_eq!(&bytes[0..2], b"PK");
    assert_eq!(entry(&bytes, "mimetype").as_deref(), Some("application/epub+zip"));
}

#[test]
fn episode_from_pair() {
    let e = Episode::from(("Ch1", "Body1"));
    assert_eq!(e.title, "Ch1");
    assert_eq!(e.body, "Body1");
}
