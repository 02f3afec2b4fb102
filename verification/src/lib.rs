//! Verified core of a CPU monitor: parsing of the kernel's text files,
//! usage and ranking arithmetic, and the pixel work behind the tray icon.

pub mod cpuinfo;
pub mod icon;
pub mod menu;
pub mod proc_stat;
pub mod process;
pub mod sampler;
pub mod sensors;
pub mod pixels;
pub mod text;
pub mod tray;
