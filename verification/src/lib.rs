//! The build pipeline of a static site: the document model, the content
//! loader, the tag and category indices, and the plans from which the output
//! tree is written.

pub mod text;
pub mod order;
pub mod page;
pub mod index;
pub mod paths;
pub mod site;
pub mod loader;
pub mod listing;
pub mod feed;
pub mod render;
