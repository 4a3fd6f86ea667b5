//! What is on the screen, and what keys do there.

pub mod devices;
pub mod keys;
pub mod layout;
pub mod render;
pub mod selection;
pub mod style;
