//! Cross-references CSS class names used in HTML documents against class
//! names defined in CSS stylesheets.
//!
//! The library works on document text handed to it as plain strings: it
//! extracts class tokens from `class="..."` attributes in HTML text, extracts
//! `.identifier` tokens from selector-like lines in CSS text, and reports the
//! two set differences (classes used but never defined, classes defined but
//! never used). Reading directories and files, and printing the report, are
//! left to the caller.

pub mod compare;
pub mod css;
pub mod html;
pub mod text;
