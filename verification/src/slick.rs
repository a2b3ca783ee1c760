//! `slick`, the small edition of the desktop: a compositor that shows one picture
//! per window, a stacked clock and a plain file dialog.

pub mod clock;
pub mod dialog;
pub mod event;
pub mod state;
