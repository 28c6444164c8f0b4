//! Layout and animation engine for a falling-text display.
//!
//! Messages are laid out into fixed-height vertical streaks with random
//! gaps between them; a scene moves every streak down one row per tick,
//! retires the streaks that have left the screen and spawns new ones, and
//! reports the cells that a terminal front end has to draw.
pub mod glyph;
pub mod message;
pub mod queue;
pub mod layout;
mod random;
pub mod streak;
pub mod scene;
pub mod quote;

pub use glyph::{Cell, StyledGlyph};
pub use message::{Message, Trend};
pub use queue::MessageQueue;
pub use streak::Streak;
pub use scene::Scene;
pub use quote::build_quote_url;
