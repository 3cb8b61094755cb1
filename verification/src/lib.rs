pub mod css;
pub mod document;
pub mod error;

pub use document::{HtmlDocument, Node, NodeIter, XPathSelection, XmlDocument};
pub use error::{ErrorLevel, XmlError};
