//! The board's terminal interface: where things lie on the screen, what is drawn
//! there, and what keys and clicks do.
pub mod card;
pub mod draw;
pub mod footer;
pub mod frame;
pub mod geometry;
pub mod labels;
pub mod outbox;
pub mod plan;
pub mod router;
pub mod shell;
pub mod style;
