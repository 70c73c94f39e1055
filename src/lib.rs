//! File selection and bundling: ordered include/exclude glob patterns decide
//! which files of a tree are bundled, and each selected file becomes one
//! record `"<separator> <relative path>\n<content>\n"` of the bundle.
pub mod pattern;
pub mod select;
pub mod record;
pub mod bundle;
