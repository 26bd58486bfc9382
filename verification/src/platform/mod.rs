pub mod linux;
pub mod macos;
pub mod patterns;
pub mod win_helpers;
pub mod windows;
