//! Running as a system service.
pub mod linux;
pub mod windows;
