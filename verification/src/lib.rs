//! The core of an interactive command console: an editable command line
//! with a byte-offset cursor, word-level hint addressing, a colon-command
//! language, history and pinning, a directory browser, and the decisions of
//! the execution engine. Terminal handling, rendering, the clipboard and
//! process spawning are left to the host program.

pub mod address;
pub mod command;
pub mod directory;
pub mod edit;
pub mod engine;
pub mod hint;
pub mod model;
pub mod quote;
pub mod replace;
pub mod session;
pub mod text;
pub mod token;
pub mod update;

pub use command::{Command, CommandError, CopyOutput, Edit, Replace};
pub use directory::{position_in_list, Click, Directory, File, Rect};
pub use hint::{base10_to_base26, base26_to_base10, HintError};
pub use model::{
    CommandWithoutOutput, CompletedCommand, Config, CurrentView, HintState, HistoryType, Origin,
    Output, OutputType,
};
pub use quote::has_open_quote;
pub use session::{Mode, Model};
pub use token::{split_string, StringType};
pub use update::{update, Effect, Event};
