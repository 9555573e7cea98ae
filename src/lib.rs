//! Repairs delimited text files whose records were broken by raw line breaks.
//!
//! The reconstruction engine consumes tokenized physical rows and reassembles
//! logical rows of a fixed width; fields are whitespace-normalized on output.

pub mod engine;
pub mod laws;
pub mod normalize;
pub mod settings;
pub mod tabular;

pub use engine::{
    detect_column_count, normalize_rows, reconstruct, reconstruct_records, render_output,
    Delimiter, FixError, HeaderMode, Stats,
};
pub use normalize::{clean_and_normalize_field, is_whitespace_char};
pub use settings::{
    delimiter_for_choice, header_mode_for_choice, input_path_decision, main_action,
    output_path_decision, settings_action, Config, MainAction, PathDecision, SettingsAction,
};
