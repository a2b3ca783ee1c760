//! The verified core of `s-compositor`, a Wayland desktop shell.
//!
//! The library holds what the shell decides and computes: shortcuts and
//! settings, the windows on the desktop, the surfaces of the compositor, client
//! buffers, files and their names, notifications, the tray and the panel's
//! applets. Reading and writing files, talking to clients and services and
//! drawing happen around it; they hand plain values in and get plain values out.

pub mod calendar;
pub mod clock;
pub mod config;
pub mod desktop;
pub mod files;
pub mod icons;
pub mod keybind;
pub mod keycode;
pub mod launch;
pub mod launcher;
pub mod network;
pub mod notify;
pub mod render;
pub mod services;
pub mod shell;
pub mod slick;
pub mod sysmon;
pub mod table;
pub mod text;
pub mod tray;
pub mod wayland;
