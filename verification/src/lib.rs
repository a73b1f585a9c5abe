//! Identifier-casing classification and declarative markup generation.
//!
//! The crate has two halves.  The casing half labels an identifier with one
//! of five naming styles, splits it into words, and reassembles the words in
//! a target style.  The markup half turns a declaratively described type
//! (a tag name plus per-variant attribute annotations) into an element
//! definition and renders element trees as nested tag strings.

pub mod attributes;
pub mod casing;
pub mod html;
pub mod metadata;
pub mod site;
