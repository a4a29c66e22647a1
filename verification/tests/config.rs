use minigrep::{Config, ConfigParsingError, Query};

fn words(args: &[&str]) -> Vec<String> {
    args.iter().map(|word| word.to_string()).collect()
}

#[test]
fn two_words_are_a_case_sensitive_query_and_a_file_name() {
    match Config::new(&words(&["prog", "duct", "file.txt"])) {
        Ok(Config { query: Query::CaseSensitive(pattern), filename }) => {
            assert_eq!("duct", pattern);
            assert_eq!("file.txt", filename);
        }
        _ => panic!("expected a case-sensitive configuration"),
    }
}

#[test]
fn a_case_sensitive_query_is_stored_as_given() {
    match Config::new(&words(&["prog", "DuCt", "File.TXT"])) {
        Ok(Config { query: Query::CaseSensitive(pattern), filename }) => {
            assert_eq!("DuCt", pattern);
            assert_eq!("File.TXT", filename);
        }
        _ => panic!("expected a case-sensitive configuration"),
    }
}

#[test]
fn the_mode_word_makes_a_lowercased_case_insensitive_query() {
    match Config::new(&words(&["prog", "case-insensitive", "rUst", "file.txt"])) {
        Ok(Config { query: Query::CaseInsensitive(pattern), filename }) => {
            assert_eq!("rust", pattern);
            assert_eq!("file.txt", filename);
        }
        _ => panic!("expected a case-insensitive configuration"),
    }
}

#[test]
fn the_file_name_of_a_case_insensitive_search_keeps_its_case() {
    match Config::new(&words(&["prog", "case-insensitive", "X", "Poem.TXT"])) {
        Ok(Config { query: Query::CaseInsensitive(pattern), filename }) => {
            assert_eq!("x", pattern);
            assert_eq!("Poem.TXT", filename);
        }
        _ => panic!("expected a case-insensitive configuration"),
    }
}

#[test]
fn no_word_after_the_program_name_is_a_wrong_count() {
    assert!(matches!(
        Config::new(&words(&["prog"])),
        Err(ConfigParsingError::TwoArgumentsExpected)
    ));
}

#[test]
fn one_word_after_the_program_name_is_a_wrong_count() {
    assert!(matches!(
        Config::new(&words(&["prog", "duct"])),
        Err(ConfigParsingError::TwoArgumentsExpected)
    ));
}

#[test]
fn four_words_after_the_program_name_are_a_wrong_count() {
    assert!(matches!(
        Config::new(&words(&["prog", "case-insensitive", "a", "b", "c"])),
        Err(ConfigParsingError::TwoArgumentsExpected)
    ));
}

#[test]
fn an_empty_command_line_is_a_wrong_count() {
    assert!(matches!(Config::new(&Vec::new()), Err(ConfigParsingError::TwoArgumentsExpected)));
}

#[test]
fn three_words_that_do_not_start_with_the_mode_word_name_the_first() {
    match Config::new(&words(&["prog", "foo", "bar", "baz"])) {
        Err(ConfigParsingError::WrongCaseInsensitiveFlagUsage(word)) => assert_eq!("foo", word),
        _ => panic!("expected the first word to be refused"),
    }
}

#[test]
fn the_mode_word_is_compared_exactly() {
    for word in ["Case-Insensitive", "case-insensitive ", "--case-insensitive", ""] {
        match Config::new(&words(&["prog", word, "bar", "baz"])) {
            Err(ConfigParsingError::WrongCaseInsensitiveFlagUsage(refused)) => {
                assert_eq!(word, refused)
            }
            _ => panic!("expected the first word to be refused"),
        }
    }
}

#[test]
fn the_mode_word_alone_with_a_file_name_is_a_case_sensitive_query() {
    match Config::new(&words(&["prog", "case-insensitive", "file.txt"])) {
        Ok(Config { query: Query::CaseSensitive(pattern), filename }) => {
            assert_eq!("case-insensitive", pattern);
            assert_eq!("file.txt", filename);
        }
        _ => panic!("expected a case-sensitive configuration"),
    }
}
