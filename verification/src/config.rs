//! Reading the command line: a pattern, a file name, and an optional mode word.

use crate::case::lowercase;
use crate::query::{Query, QueryView};
use vstd::prelude::*;

verus! {

/// What to search for, and in which file.
pub struct Config {
    pub query: Query,
    pub filename: String,
}

/// The mathematical value of a [`Config`].
pub struct ConfigView {
    pub query: QueryView,
    pub filename: Seq<char>,
}

impl View for Config {
    type V = ConfigView;

    open spec fn view(&self) -> ConfigView {
        ConfigView { query: self.query@, filename: self.filename@ }
    }
}

/// Why a command line was refused.
pub enum ConfigParsingError {
    /// The command line does not have two or three words after the program's name.
    TwoArgumentsExpected,
    /// Three words were given and the first, held here, is not the mode word.
    WrongCaseInsensitiveFlagUsage(String),
}

/// The mathematical value of a [`ConfigParsingError`].
pub enum ConfigParsingErrorView {
    TwoArgumentsExpected,
    WrongCaseInsensitiveFlagUsage(Seq<char>),
}

impl View for ConfigParsingError {
    type V = ConfigParsingErrorView;

    open spec fn view(&self) -> ConfigParsingErrorView {
        match self {
            ConfigParsingError::TwoArgumentsExpected => ConfigParsingErrorView::TwoArgumentsExpected,
            ConfigParsingError::WrongCaseInsensitiveFlagUsage(word) =>
                ConfigParsingErrorView::WrongCaseInsensitiveFlagUsage(word@),
        }
    }
}

/// The word that asks for a case-insensitive search.
pub const CASE_INSENSITIVE: &'static str = "case-insensitive";

/// What a command line means. `args[0]` is the program's name. Two more words are a
/// pattern, matched exactly, and a file name. Three more words are the mode word, a
/// pattern to match whatever the case, and a file name.
pub open spec fn parse(args: Seq<Seq<char>>) -> Result<ConfigView, ConfigParsingErrorView> {
    if args.len() == 3 {
        Ok(ConfigView { query: QueryView::CaseSensitive(args[1]), filename: args[2] })
    } else if args.len() == 4 {
        if args[1] == CASE_INSENSITIVE@ {
            Ok(
                ConfigView {
                    query: QueryView::CaseInsensitive(lowercase(args[2])),
                    filename: args[3],
                },
            )
        } else {
            Err(ConfigParsingErrorView::WrongCaseInsensitiveFlagUsage(args[1]))
        }
    } else {
        Err(ConfigParsingErrorView::TwoArgumentsExpected)
    }
}

/// The mathematical value of what reading a command line gives.
pub open spec fn outcome(
    parsed: Result<Config, ConfigParsingError>,
) -> Result<ConfigView, ConfigParsingErrorView> {
    match parsed {
        Ok(config) => Ok(config@),
        Err(error) => Err(error@),
    }
}

impl Config {
    /// Reads the command line `args`, the program's name included. A command line
    /// without any word, not even the program's name, is refused for its length too.
    pub fn new(args: &Vec<String>) -> (parsed: Result<Config, ConfigParsingError>)
        ensures
            outcome(parsed) == parse(args.deep_view()),
            parsed matches Ok(config) ==> config@.query.wf(),
    {
        if args.len() == 3 {
            Ok(
                Config {
                    query: Query::as_case_sensitive(args[1].clone()),
                    filename: args[2].clone(),
                },
            )
        } else if args.len() == 4 {
            if args[1] == CASE_INSENSITIVE.to_owned() {
                Ok(
                    Config {
                        query: Query::as_case_insensitive(args[2].clone()),
                        filename: args[3].clone(),
                    },
                )
            } else {
                Err(ConfigParsingError::WrongCaseInsensitiveFlagUsage(args[1].clone()))
            }
        } else {
            Err(ConfigParsingError::TwoArgumentsExpected)
        }
    }
}

} // verus!
