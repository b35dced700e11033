//! The bar itself: what it shows and how it reacts.

pub mod controller;
pub mod feedback;
pub mod hover;
pub mod motion;
pub mod page;
pub mod palette;
pub mod requests;
pub mod view;
