use hameln_publish::scanner::{find_episode, EpisodeFinder};

const BLOCK_1: &str = "<span style=\"font-size:large\">Ch1</span><div class=\"honbun\">Body1</div>\n";
const BLOCK_2: &str = "<span style=\"font-size:large\">Ch2</span>gap<div class=\"honbun\">Body2</div>\n";

#[test]
fn find_episode_one_block() {
    let text = format!("lead{}tail", BLOCK_1);
    let (episode, rest) = find_episode(&text).unwrap();
    assert_eq!(episode.title, "Ch1");
    assert_eq!(episode.body, "Body1");
    assert_eq!(rest, "tail");
}

#[test]
fn find_episode_no_title_marker() {
    assert!(find_episode("<div class=\"honbun\">Body1</div>\n").is_none());
    assert!(find_episode("").is_none());
}

#[test]
fn find_episode_body_needs_newline_after_div() {
    let text = "<span style=\"font-size:large\">Ch1</span><div class=\"honbun\">Body1</div>";
    assert!(find_episode(text).is_none());
}

#[test]
fn find_episode_body_may_hold_markup() {
    let text = "<span style=\"font-size:large\">T</span><div class=\"honbun\"><p>a</p></div><br></div>\nx";
    let (episode, rest) = find_episode(text).unwrap();
    assert_eq!(episode.title, "T");
    assert_eq!(episode.body, "<p>a</p></div><br>");
    assert_eq!(rest, "x");
}

#[test]
fn scanner_two_blocks_in_order() {
    let text = format!("{}{}", BLOCK_1, BLOCK_2);
    let mut finder = EpisodeFinder::new(&text);
    let first = finder.next().unwrap();
    assert_eq!((first.title, first.body), ("Ch1", "Body1"));
    let second = finder.next().unwrap();
    assert_eq!((second.title, second.body), ("Ch2", "Body2"));
    assert!(finder.next().is_none());
    assert!(finder.next().is_none());
}

#[test]
fn scanner_collects_exactly_two() {
    let text = format!("intro{}between{}outro", BLOCK_1, BLOCK_2);
    let episodes = EpisodeFinder::new(&text).collect();
    assert_eq!(episodes.len(), 2);
    assert_eq!(episodes[0].title, "Ch1");
    assert_eq!(episodes[0].body, "Body1");
    assert_eq!(episodes[1].title, "Ch2");
    assert_eq!(episodes[1].body, "Body2");
}

#[test]
fn scanner_dangling_block_ends_scan() {
    let text = format!(
        "{}<span style=\"font-size:large\">Ch2</span><div class=\"honbun\">never closed",
        BLOCK_1
    );
    let episodes = EpisodeFinder::new(&text).collect();
    assert_eq!(episodes.len(), 1);
    assert_eq!(episodes[0].title, "Ch1");
}

#[test]
fn scanner_dangling_title_ends_scan() {
    let text = format!("{}<span style=\"font-size:large\">Ch2", BLOCK_1);
    let episodes = EpisodeFinder::new(&text).collect();
    assert_eq!(episodes.len(), 1);
}

#[test]
fn scanner_empty_text() {
    assert!(EpisodeFinder::new("").collect().is_empty());
    assert!(EpisodeFinder::new("no blocks at all").collect().is_empty());
}

#[test]
fn scanner_moves_forward_only() {
    let text = format!("{}{}end", BLOCK_1, BLOCK_2);
    let mut finder = EpisodeFinder::new(&text);
    assert_eq!(finder.remaining(), text);
    let mut left = finder.remaining().len();
    let base = text.as_ptr() as usize;
    let mut last_end = 0usize;
    while let Some(episode) = finder.next() {
        let title_at = episode.title.as_ptr() as usize - base;
        let body_at = episode.body.as_ptr() as usize - base;
        assert!(title_at >= last_end);
        assert!(body_at >= title_at + episode.title.len());
        last_end = body_at + episode.body.len();
        assert!(finder.remaining().len() < left);
        assert!(text.ends_with(finder.remaining()));
        left = finder.remaining().len();
    }
    assert_eq!(finder.remaining(), "end");
}

#[test]
fn scanner_multibyte_episode() {
    let text = "<span style=\"font-size:large\">第一話　始まり</span><div class=\"honbun\">本文です。</div>\n後書き";
    let mut finder = EpisodeFinder::new(text);
    let episode = finder.next().unwrap();
    assert_eq!(episode.title, "第一話　始まり");
    assert_eq!(episode.body, "本文です。");
    assert_eq!(finder.remaining(), "後書き");
}
