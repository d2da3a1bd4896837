//! A headless model of an HTTP client's collection sidebar: the entities it
//! shows, the expandable tree that projects them into rows, and the registry
//! of open collections that the window keeps in step with that tree.

pub mod error;
pub mod objects;
pub mod widgets;
pub mod win;
