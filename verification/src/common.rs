//! What the parts of the directory share.

pub mod app_error;
