//! The logic of a terminal workspace: session IDs, shell launch plans,
//! clipboard requests in terminal output, and path handling.
pub mod osc52;
pub mod osc52_laws;
pub mod text;
pub mod session;
pub mod sessions;
pub mod shell;
pub mod paths;
pub mod shell_laws;
