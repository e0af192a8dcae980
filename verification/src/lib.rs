//! Builds an element tree from XML text.
//!
//! The work is split into three stages that feed one another:
//!
//! - the tokenizer in [`token`] cuts the text into tags and drops what
//!   stands between them;
//! - the classifier in [`tag`] reads the kind, the name and the attributes
//!   of one tag;
//! - the builder in [`builder`] arranges the elements into a tree, with an
//!   explicit stack of the elements that are open.
//!
//! [`parser::parse_xml_to_tree`] runs the three stages over a text, tag by
//! tag, and gives the tree of [`tree`] or the first failure of [`error`].
//! [`run`] holds what is proved of the builder over whole sequences of tags,
//! [`render`] writes a tree out as text, and [`text`] holds the character
//! classes and searches that the stages share.
//!
//! Entities, comments, processing instructions and character data sections
//! are not interpreted, and the text between the tags is not kept.

pub mod builder;
pub mod error;
pub mod parser;
pub mod render;
pub mod run;
pub mod tag;
pub mod text;
pub mod token;
pub mod tree;

pub use builder::TreeBuilder;
pub use error::{ParseError, ParseErrorKind};
pub use parser::parse_xml_to_tree;
pub use run::build_tree;
pub use tag::{classify, classify_all, Attribute, Tag, TagKind};
pub use token::{tokenize, TagToken};
pub use tree::{NodeId, XmlNode, XmlTree};
