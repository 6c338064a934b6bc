//! Rendering core of a declarative web UI toolkit: widgets describe a frame,
//! rendering turns them into a virtual node tree, and style rules used along
//! the way are interned into a per-frame style sheet.
pub mod css;
pub mod layout;
pub mod node;
pub mod widget;

pub use css::{Css, Rule};
pub use layout::{Alignment, Length, Padding};
pub use node::Node;
pub use widget::{render, Element, Row, RowModel, Text};
