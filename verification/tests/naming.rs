use hameln_publish::naming::{id_to_url, is_reserved, push_decimal, sanitize};
use hameln_publish::novel::{Episode, Novel};

#[test]
fn id_to_url_exact() {
    assert_eq!(id_to_url(12345), "http://syosetu.org/?mode=ss_view_all&nid=12345");
    assert_eq!(id_to_url(0), "http://syosetu.org/?mode=ss_view_all&nid=0");
    assert_eq!(id_to_url(7), "http://syosetu.org/?mode=ss_view_all&nid=7");
    assert_eq!(id_to_url(10), "http://syosetu.org/?mode=ss_view_all&nid=10");
    assert_eq!(
        id_to_url(u32::MAX),
        "http://syosetu.org/?mode=ss_view_all&nid=4294967295"
    );
}

#[test]
fn push_decimal_appends() {
    let mut s = String::from("n=");
    push_decimal(&mut s, 0);
    push_decimal(&mut s, 9);
    push_decimal(&mut s, 100);
    assert_eq!(s, "n=09100");
    let mut s = String::new();
    push_decimal(&mut s, u64::MAX);
    assert_eq!(s, "18446744073709551615");
}

#[test]
fn push_decimal_agrees_with_std() {
    for n in [0u64, 1, 9, 10, 11, 99, 100, 101, 999, 1000, 65535, 1234567890] {
        let mut s = String::new();
        push_decimal(&mut s, n);
        assert_eq!(s, n.to_string());
    }
}

#[test]
fn sanitize_replaces_each_reserved_character() {
    assert_eq!(sanitize("\\/:*?\"<>|"), "_________");
    assert_eq!(sanitize("a/b:c"), "a_b_c");
    assert_eq!(sanitize("What? <Really>"), "What_ _Really_");
}

#[test]
fn sanitize_keeps_everything_else() {
    assert_eq!(sanitize(""), "");
    assert_eq!(sanitize("plain name_1.txt"), "plain name_1.txt");
    assert_eq!(sanitize("題名：その一/二"), "題名：その一_二");
    assert_eq!(sanitize("𝄞|é"), "𝄞_é");
}

#[test]
fn is_reserved_exactly_nine() {
    let reserved: Vec<char> = (0u32..0x250).filter_map(char::from_u32).filter(|c| is_reserved(*c)).collect();
    assert_eq!(reserved, vec!['"', '*', '/', ':', '<', '>', '?', '\\', '|']);
}

#[test]
fn make_filename_exact() {
    let novel = Novel { title: "Title", author: "Author", episodes: Vec::new() };
    assert_eq!(novel.make_filename(), "[Author] Title.epub");
}

#[test]
fn make_filename_sanitizes_both() {
    let novel = Novel { title: "a/b?", author: "x:y", episodes: vec![Episode::new("t", "b")] };
    assert_eq!(novel.make_filename(), "[x_y] a_b_.epub");
    let novel = Novel { title: "猫", author: "夏目", episodes: Vec::new() };
    assert_eq!(novel.make_filename(), "[夏目] 猫.epub");
}

#[test]
fn episode_new_holds_its_parts() {
    let e = Episode::new("Ch1", "Body1");
    assert_eq!(e.title, "Ch1");
    assert_eq!(e.body, "Body1");
}
