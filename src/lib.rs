//! Dice notation for chat commands such as `!roll 2d6 1d8`: the operand is
//! cleaned to digits, spaces and `d`, read into `<multiplier>d<faces>` groups,
//! rolled, pooled by face count and rendered as text.

pub mod command;
pub mod engine;
pub mod laws;
pub mod render;
pub mod roll;
pub mod sanitize;
pub mod scan;
pub mod text;

pub use command::{affirmation, evaluate, failure_message, roll_command, Rollable};
pub use engine::{roll_all, roll_token};
pub use roll::{RollResult, RollSet};
pub use sanitize::{clean_operand, sanitize, strip_command, Contentful};
pub use scan::{close_pair, parse_count, scan, DiceToken, NumError, ParseError, Scan};
