use vstd::prelude::*;
use vstd::string::StringExecFns;

use crate::engine::{Delimiter, HeaderMode};

verus! {

/// The settings of an interactive session.
#[derive(Debug, Clone)]
pub struct Config {
    pub delimiter: Delimiter,
    pub header_mode: HeaderMode,
    pub input_file: String,
    pub output_file: String,
}

impl Default for Config {
    /// Comma-separated, with headers, reading `data.csv` and writing `output.csv`.
    fn default() -> (r: Config)
        ensures
            r.delimiter == Delimiter::Comma,
            r.header_mode == HeaderMode::HasHeaders,
            r.input_file@ == "data.csv"@,
            r.output_file@ == "output.csv"@,
    {
        Config {
            delimiter: Delimiter::Comma,
            header_mode: HeaderMode::HasHeaders,
            input_file: String::from_str("data.csv"),
            output_file: String::from_str("output.csv"),
        }
    }
}

/// What the main menu offers.
#[derive(Debug, Clone, Copy, PartialEq, Eq)]
pub enum MainAction {
    Process,
    Settings,
    Exit,
}

/// What the settings menu offers.
#[derive(Debug, Clone, Copy, PartialEq, Eq)]
pub enum SettingsAction {
    ChangeDelimiter,
    ChangeHeaderMode,
    ChangeInputFile,
    ChangeOutputFile,
    Reset,
    Back,
}

/// What to do with a path that the user typed.
#[derive(Debug, Clone, Copy, PartialEq, Eq)]
pub enum PathDecision {
    /// Leave the setting as it is.
    Keep,
    /// Take the new path.
    Accept,
    /// Ask the user first; take the path only if they agree.
    Confirm,
}

/// Main menu entries 1 to 3.
pub fn main_action(choice: usize) -> (r: Option<MainAction>)
    ensures
        r == (if choice == 1 {
            Some(MainAction::Process)
        } else if choice == 2 {
            Some(MainAction::Settings)
        } else if choice == 3 {
            Some(MainAction::Exit)
        } else {
            None::<MainAction>
        }),
{
    match choice {
        1 => Some(MainAction::Process),
        2 => Some(MainAction::Settings),
        3 => Some(MainAction::Exit),
        _ => None,
    }
}

/// Settings menu entries 1 to 6.
pub fn settings_action(choice: usize) -> (r: Option<SettingsAction>)
    ensures
        r == (if choice == 1 {
            Some(SettingsAction::ChangeDelimiter)
        } else if choice == 2 {
            Some(SettingsAction::ChangeHeaderMode)
        } else if choice == 3 {
            Some(SettingsAction::ChangeInputFile)
        } else if choice == 4 {
            Some(SettingsAction::ChangeOutputFile)
        } else if choice == 5 {
            Some(SettingsAction::Reset)
        } else if choice == 6 {
            Some(SettingsAction::Back)
        } else {
            None::<SettingsAction>
        }),
{
    match choice {
        1 => Some(SettingsAction::ChangeDelimiter),
        2 => Some(SettingsAction::ChangeHeaderMode),
        3 => Some(SettingsAction::ChangeInputFile),
        4 => Some(SettingsAction::ChangeOutputFile),
        5 => Some(SettingsAction::Reset),
        6 => Some(SettingsAction::Back),
        _ => None,
    }
}

/// Delimiter menu entries 1 to 4: comma, semicolon, tab, pipe.
pub fn delimiter_for_choice(choice: usize) -> (r: Option<Delimiter>)
    ensures
        r == (if choice == 1 {
            Some(Delimiter::Comma)
        } else if choice == 2 {
            Some(Delimiter::Semicolon)
        } else if choice == 3 {
            Some(Delimiter::Tab)
        } else if choice == 4 {
            Some(Delimiter::Pipe)
        } else {
            None::<Delimiter>
        }),
{
    match choice {
        1 => Some(Delimiter::Comma),
        2 => Some(Delimiter::Semicolon),
        3 => Some(Delimiter::Tab),
        4 => Some(Delimiter::Pipe),
        _ => None,
    }
}

/// Header mode menu entries 1 and 2.
pub fn header_mode_for_choice(choice: usize) -> (r: Option<HeaderMode>)
    ensures
        r == (if choice == 1 {
            Some(HeaderMode::HasHeaders)
        } else if choice == 2 {
            Some(HeaderMode::NoHeaders)
        } else {
            None::<HeaderMode>
        }),
{
    match choice {
        1 => Some(HeaderMode::HasHeaders),
        2 => Some(HeaderMode::NoHeaders),
        _ => None,
    }
}

/// A new input path: an empty one changes nothing, an existing file is taken,
/// and a missing one only after confirmation.
pub fn input_path_decision(input: &str, exists: bool) -> (r: PathDecision)
    ensures
        r == (if input@.len() == 0 {
            PathDecision::Keep
        } else if exists {
            PathDecision::Accept
        } else {
            PathDecision::Confirm
        }),
{
    if input.is_empty() {
        PathDecision::Keep
    } else if exists {
        PathDecision::Accept
    } else {
        PathDecision::Confirm
    }
}

/// A new output path: an empty one changes nothing, an existing file is
/// overwritten only after confirmation, and a new one is taken.
pub fn output_path_decision(input: &str, exists: bool) -> (r: PathDecision)
    ensures
        r == (if input@.len() == 0 {
            PathDecision::Keep
        } else if exists {
            PathDecision::Confirm
        } else {
            PathDecision::Accept
        }),
{
    if input.is_empty() {
        PathDecision::Keep
    } else if exists {
        PathDecision::Confirm
    } else {
        PathDecision::Accept
    }
}

} // verus!
