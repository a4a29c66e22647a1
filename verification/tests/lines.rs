use minigrep::lines::{lines, split_first_line};

#[test]
fn split_first_line_cuts_at_the_first_line_feed() {
    assert_eq!(("one", "two\nthree"), split_first_line("one\ntwo\nthree"));
    assert_eq!(("", "two"), split_first_line("\ntwo"));
    assert_eq!(("one", ""), split_first_line("one\n"));
}

#[test]
fn split_first_line_drops_a_carriage_return_before_the_line_feed() {
    assert_eq!(("one", "two"), split_first_line("one\r\ntwo"));
    assert_eq!(("one\r", "two"), split_first_line("one\r\r\ntwo"));
    assert_eq!(("", "\r\n"), split_first_line("\r\n\r\n"));
    assert_eq!(("o\rne", ""), split_first_line("o\rne\r\n"));
}

#[test]
fn split_first_line_takes_all_of_a_text_without_line_feed() {
    assert_eq!(("one", ""), split_first_line("one"));
    assert_eq!(("one\r", ""), split_first_line("one\r"));
    assert_eq!(("", ""), split_first_line(""));
}

#[test]
fn split_first_line_keeps_characters_of_several_bytes_whole() {
    assert_eq!(("\u{65e5}\u{672c}", "\u{8a9e}\u{1f600}"),
        split_first_line("\u{65e5}\u{672c}\r\n\u{8a9e}\u{1f600}"));
    assert_eq!(("\u{10a}", "\u{10d}"), split_first_line("\u{10a}\n\u{10d}"));
}

#[test]
fn lines_end_at_line_feeds() {
    assert_eq!(vec!["Rust:", "safe, fast, productive.", "Pick three."],
        lines("Rust:\nsafe, fast, productive.\nPick three."));
}

#[test]
fn a_final_line_feed_adds_no_empty_line() {
    assert_eq!(vec!["one", "two"], lines("one\ntwo\n"));
    assert_eq!(vec!["one", "two", ""], lines("one\ntwo\n\n"));
    assert_eq!(vec![""], lines("\n"));
    assert_eq!(Vec::<String>::new(), lines(""));
}

#[test]
fn a_carriage_return_before_a_line_feed_belongs_to_the_line_ending() {
    assert_eq!(vec!["one", "two"], lines("one\r\ntwo\r\n"));
    assert_eq!(vec!["", ""], lines("\r\n\r\n"));
}

#[test]
fn other_carriage_returns_stay_in_the_line() {
    assert_eq!(vec!["one\rtwo"], lines("one\rtwo"));
    assert_eq!(vec!["one\r"], lines("one\r"));
    assert_eq!(vec!["one\r", "two"], lines("one\r\r\ntwo"));
    assert_eq!(vec!["\r"], lines("\r"));
    assert_eq!(vec!["\rone"], lines("\rone\n"));
}

#[test]
fn lines_agree_with_the_standard_library() {
    let texts = [
        "",
        "\n",
        "\r",
        "\r\n",
        "\n\r",
        "\r\r\n\r",
        "a",
        "a\n",
        "a\r\n",
        "a\n\nb",
        "a\r\nb\rc\n\rd\r",
        "\u{65e5}\u{672c}\n\u{8a9e}\r\n\u{e9}",
        "trailing\n\n\n",
    ];
    for text in texts {
        let wanted: Vec<&str> = text.lines().collect();
        assert_eq!(wanted, lines(text));
    }
}

#[test]
fn a_final_line_ending_is_optional() {
    for text in ["one", "one\ntwo", "\none", "one\r\ntwo", "\u{65e5}\n\u{672c}"] {
        assert_eq!(lines(text), lines(format!("{}\n", text).as_str()));
        assert_eq!(lines(text), lines(format!("{}\r\n", text).as_str()));
    }
    assert_eq!(lines("one\r"), lines("one\r\r\n"));
}

#[test]
fn no_line_holds_a_line_feed_and_every_line_is_part_of_the_text() {
    let text = "one\r\ntwo\n\nthree\rfour\n";
    for line in lines(text) {
        assert!(!line.contains('\n'));
        assert!(text.contains(line.as_str()));
    }
}

fn texts_over(alphabet: &[char], longest: usize) -> Vec<String> {
    let mut all = vec![String::new()];
    let mut from = 0;
    for _ in 0..longest {
        let until = all.len();
        for i in from..until {
            for c in alphabet {
                let mut longer = all[i].clone();
                longer.push(*c);
                all.push(longer);
            }
        }
        from = until;
    }
    all
}

#[test]
fn lines_agree_with_the_standard_library_on_every_short_text() {
    for text in texts_over(&['a', '\n', '\r', '\u{e9}', '\u{1f600}'], 6) {
        let wanted: Vec<&str> = text.lines().collect();
        assert_eq!(wanted, lines(text.as_str()), "lines of {:?}", text);
    }
}

#[test]
fn split_first_line_gives_the_first_line_and_the_text_after_it() {
    for text in texts_over(&['a', '\n', '\r', '\u{10a}'], 6) {
        let (line, after) = split_first_line(text.as_str());
        match text.split_once('\n') {
            Some((head, tail)) => {
                assert_eq!(head.strip_suffix('\r').unwrap_or(head), line);
                assert_eq!(tail, after);
            }
            None => {
                assert_eq!(text, line);
                assert_eq!("", after);
            }
        }
    }
}
