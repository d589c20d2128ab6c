use mvplayer::paths::{
    extension_of, is_audio_file, is_video_file, locate, relative_to,
};
use mvplayer::text::{
    blank, chars_of, copy_texts, decimal, has_char_from, join_lines, last_occurrence, listed,
    matches_at, same_text, slice_of, split_text, text_lt, trim,
};

fn texts(list: &[&str]) -> Vec<String> {
    list.iter().map(|s| s.to_string()).collect()
}

fn chars(s: &str) -> Vec<char> {
    s.chars().collect()
}

#[test]
fn locations_under_a_root() {
    assert_eq!(locate("/v", "a.mp4"), "/v/a.mp4");
    assert_eq!(locate("/v/", "a.mp4"), "/v/a.mp4");
    assert_eq!(locate("/v", "/abs/a.mp4"), "/abs/a.mp4");
    assert_eq!(locate("", "a.mp4"), "a.mp4");
    assert_eq!(locate("video", "sub/a.mp4"), "video/sub/a.mp4");
    assert_eq!(locate("/v", ""), "/v/");
    assert_eq!(locate("/", "a"), "/a");
}

#[test]
fn stored_identities_are_relative_to_the_root() {
    assert_eq!(relative_to("/v", "/v/a.mp4"), "a.mp4");
    assert_eq!(relative_to("/v/", "/v/sub/a.mp4"), "sub/a.mp4");
    assert_eq!(relative_to("video", "video/1.mp4"), "1.mp4");
    assert_eq!(relative_to("/v", "/v/v/a.mp4"), "v/a.mp4");
    assert_eq!(relative_to("/a", "/a/a.mp3"), "a.mp3");
    assert_eq!(relative_to("/v", "/other/a.mp4"), "/other/a.mp4");
    assert_eq!(relative_to("/v", "/video/a.mp4"), "/video/a.mp4");
    assert_eq!(relative_to("/v", "/v"), "/v");
    assert_eq!(relative_to("/v", "/v/"), "");
    assert_eq!(relative_to("/v", "/v//a.mp4"), "/v//a.mp4");
    assert_eq!(relative_to("", "a.mp4"), "a.mp4");
    assert_eq!(relative_to("/", "/a.mp4"), "a.mp4");
}

#[test]
fn a_stored_identity_leads_back_to_its_location() {
    for root in ["/v", "/v/", "video", "", "/"] {
        for location in ["/v/a.mp4", "/v/v/a.mp4", "/else/a.mp4", "/v", "/v/", "/a"] {
            assert_eq!(locate(root, &relative_to(root, location)), location);
        }
        for identity in ["a.mp4", "sub/a.mp4", "", "v/a.mp4", "video/a.mp4"] {
            if !root.is_empty() {
                assert_eq!(relative_to(root, &locate(root, identity)), identity);
            }
        }
    }
    assert_eq!(locate("video", &relative_to("video", "other/1.mp4")), "video/other/1.mp4");
}

#[test]
fn extensions() {
    assert_eq!(extension_of("/v/a.mp4"), Some("mp4".to_string()));
    assert_eq!(extension_of("a.tar.gz"), Some("gz".to_string()));
    assert_eq!(extension_of("a."), Some("".to_string()));
    assert_eq!(extension_of(".a.b"), Some("b".to_string()));
    assert_eq!(extension_of("a"), None);
    assert_eq!(extension_of(""), None);
    assert_eq!(extension_of(".hidden"), None);
    assert_eq!(extension_of("/v/.hidden"), None);
    assert_eq!(extension_of("/v.d/a"), None);
    assert_eq!(extension_of("/v/a.mp4/"), None);
}

#[test]
fn allow_lists() {
    for ext in ["mp4", "mkv", "avi", "webm", "ts", "flv", "wmv", "mov", "mpg", "mpeg"] {
        assert!(is_video_file(&format!("/v/x.{}", ext)));
        assert!(!is_audio_file(&format!("/v/x.{}", ext)));
    }
    for ext in ["mp3", "wav", "ogg", "flac", "m4a", "aac"] {
        assert!(is_audio_file(&format!("/a/x.{}", ext)));
        assert!(!is_video_file(&format!("/a/x.{}", ext)));
    }
    assert!(!is_video_file("/v/x.MP4"));
    assert!(!is_video_file("/v/mp4"));
    assert!(!is_video_file("/v/.mp4"));
    assert!(!is_audio_file("/a/x.mp3.txt"));
    assert!(!is_audio_file(""));
}

#[test]
fn white_space_is_trimmed() {
    assert_eq!(trim("  a b  "), "a b");
    assert_eq!(trim("\t\n\u{b}\u{c}\r x \u{85}\u{a0}\u{1680}\u{2000}\u{200a}"), "x");
    assert_eq!(trim("\u{2028}\u{2029}\u{202f}\u{205f}\u{3000}"), "");
    assert_eq!(trim("\u{200b}x\u{200b}"), "\u{200b}x\u{200b}");
    assert_eq!(trim(""), "");
    assert_eq!(trim("x"), "x");
    for code in 0u32..0x3100 {
        if let Some(c) = char::from_u32(code) {
            assert_eq!(blank(c), c.is_whitespace());
        }
    }
}

#[test]
fn text_is_split_at_a_character() {
    assert_eq!(split_text("a,b,c", ','), texts(&["a", "b", "c"]));
    assert_eq!(split_text("", ','), texts(&[""]));
    assert_eq!(split_text(",", ','), texts(&["", ""]));
    assert_eq!(split_text("a,,b,", ','), texts(&["a", "", "b", ""]));
    assert_eq!(split_text("no separator", ','), texts(&["no separator"]));
    assert_eq!(split_text("é\nü", '\n'), texts(&["é", "ü"]));
}

#[test]
fn numerals() {
    assert_eq!(decimal(0), "0");
    assert_eq!(decimal(7), "7");
    assert_eq!(decimal(10), "10");
    assert_eq!(decimal(1234567890), "1234567890");
    assert_eq!(decimal(usize::MAX), usize::MAX.to_string());
}

#[test]
fn lexicographic_order() {
    assert!(text_lt(&chars("a"), &chars("b")));
    assert!(text_lt(&chars("a"), &chars("ab")));
    assert!(text_lt(&chars(""), &chars("a")));
    assert!(text_lt(&chars("Z"), &chars("a")));
    assert!(text_lt(&chars("z"), &chars("é")));
    assert!(!text_lt(&chars("a"), &chars("a")));
    assert!(!text_lt(&chars("b"), &chars("a")));
    assert!(!text_lt(&chars("ab"), &chars("a")));
    assert!(!text_lt(&chars(""), &chars("")));
    let mut words = texts(&["b", "", "ab", "a", "é", "B", "a\u{10000}", "a\u{ffff}"]);
    let mut mine = words.clone();
    words.sort();
    mine.sort_by(|x, y| {
        if text_lt(&chars(x), &chars(y)) {
            std::cmp::Ordering::Less
        } else if text_lt(&chars(y), &chars(x)) {
            std::cmp::Ordering::Greater
        } else {
            std::cmp::Ordering::Equal
        }
    });
    assert_eq!(mine, words);
}

#[test]
fn searching_in_characters() {
    let hay = chars("a - b - c");
    let sep = chars(" - ");
    assert!(matches_at(&hay, 1, &sep));
    assert!(!matches_at(&hay, 0, &sep));
    assert!(!matches_at(&hay, 7, &sep));
    assert!(!matches_at(&hay, 100, &sep));
    assert!(matches_at(&hay, 9, &chars("")));
    assert_eq!(last_occurrence(&hay, &sep), Some(5));
    assert_eq!(last_occurrence(&hay, &chars("x")), None);
    assert_eq!(last_occurrence(&chars("ab"), &chars("abc")), None);
    assert_eq!(last_occurrence(&chars(" - - "), &sep), Some(2));
    assert_eq!(last_occurrence(&hay, &chars("")), Some(9));
    assert!(has_char_from(&hay, 0, 'a'));
    assert!(!has_char_from(&hay, 1, 'a'));
    assert!(has_char_from(&hay, 8, 'c'));
    assert!(!has_char_from(&hay, 9, 'c'));
}

#[test]
fn copies_and_comparisons() {
    assert_eq!(chars_of("aé\u{10000}"), vec!['a', 'é', '\u{10000}']);
    assert_eq!(slice_of("aé\u{10000}b", 1, 3), "é\u{10000}");
    assert_eq!(slice_of("abc", 1, 1), "");
    assert!(same_text("abc", "abc"));
    assert!(!same_text("abc", "abd"));
    assert!(!same_text("abc", "ab"));
    let list = texts(&["a", "b"]);
    assert_eq!(copy_texts(&list), list);
    assert!(listed(&list, "b"));
    assert!(!listed(&list, "c"));
    assert_eq!(join_lines(&list), "a\nb\n");
    assert_eq!(join_lines(&texts(&[])), "");
}
