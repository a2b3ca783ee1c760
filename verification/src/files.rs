//! The file browser and the file dialog: listings, navigation, selection and the
//! naming rules of file operations.

pub mod browser;
pub mod copy;
pub mod dialog;
pub mod kind;
pub mod listing;
pub mod ops;
pub mod size;
