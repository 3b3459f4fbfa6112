//! A text-grid layout engine: logical lines of styled characters are wrapped
//! onto a fixed-width character grid whose rows grow in fixed steps.

pub mod cell;
pub mod laws;
pub mod line;
pub mod model_layout;
pub mod ui_model;
pub mod wrap;

pub use cell::{Attrs, Cell, Color};
pub use line::Line;
pub use model_layout::{LayoutView, ModelLayout};
pub use ui_model::{GridView, UiModel};
