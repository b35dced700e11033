//! Decision logic of Snapbar, a resident bar that copies the content another
//! participant shares in a Microsoft Teams meeting to the clipboard.

pub mod accessibility;
pub mod assets;
pub mod bar;
pub mod content;
pub mod copy;
pub mod detector;
pub mod diagnostics;
pub mod error;
pub mod flash;
pub mod flash_color;
pub mod geometry;
pub mod layout;
pub mod locator;
pub mod meeting;
pub mod numeric;
pub mod output;
pub mod ratio;
pub mod recovery;
pub mod request;
pub mod screenshots;
pub mod session;
pub mod single;
pub mod source;
pub mod text;
