use minigrep::substring::contains;

#[test]
fn contains_finds_a_pattern_at_the_start_in_the_middle_and_at_the_end() {
    assert!(contains("safe, fast, productive.", "safe"));
    assert!(contains("safe, fast, productive.", "duct"));
    assert!(contains("safe, fast, productive.", "ive."));
    assert!(contains("abc", "abc"));
}

#[test]
fn contains_refuses_what_is_not_there() {
    assert!(!contains("Duct tape.", "duct"));
    assert!(!contains("abc", "abcd"));
    assert!(!contains("abc", "ac"));
    assert!(!contains("", "a"));
    assert!(!contains("aab", "abb"));
}

#[test]
fn contains_finds_the_empty_pattern_everywhere() {
    assert!(contains("", ""));
    assert!(contains("abc", ""));
}

#[test]
fn contains_finds_a_pattern_after_a_partial_match() {
    assert!(contains("aaab", "aab"));
    assert!(contains("abababc", "ababc"));
}

#[test]
fn contains_compares_whole_characters() {
    assert!(contains("x\u{e9}y", "\u{e9}y"));
    assert!(!contains("x\u{e9}y", "ey"));
    assert!(contains("\u{65e5}\u{672c}\u{8a9e}", "\u{672c}"));
    assert!(!contains("\u{65e5}\u{8a9e}", "\u{672c}"));
    assert!(contains("a\u{1f600}b", "\u{1f600}b"));
}

#[test]
fn contains_agrees_with_the_standard_library() {
    let texts = [
        "",
        "a",
        "ab",
        "ba",
        "aab",
        "abab",
        "\u{e9}a\u{e8}",
        "\u{e9}",
        "\u{e8}",
        "a\u{65e5}b",
        "\u{65e5}\u{672c}",
        "\u{672c}",
        "\u{1f600}",
        "x\u{1f600}\u{1f601}",
    ];
    for haystack in texts {
        for needle in texts {
            assert_eq!(haystack.contains(needle), contains(haystack, needle));
        }
    }
}

fn every_text_over(alphabet: &[char], longest: usize) -> Vec<String> {
    let mut all = vec![String::new()];
    let mut from = 0;
    for _ in 0..longest {
        let until = all.len();
        for i in from..until {
            for c in alphabet {
                let mut longer = all[i].clone();
                longer.push(*c);
                all.push(longer);
            }
        }
        from = until;
    }
    all
}

#[test]
fn contains_agrees_with_the_standard_library_on_every_short_text() {
    let alphabet = ['a', 'b', '\u{e9}', '\u{e8}', '\u{1f600}'];
    let needles = every_text_over(&alphabet, 3);
    for haystack in every_text_over(&alphabet, 5) {
        for needle in &needles {
            assert_eq!(
                haystack.contains(needle.as_str()),
                contains(haystack.as_str(), needle.as_str()),
                "{:?} in {:?}",
                needle,
                haystack
            );
        }
    }
}
