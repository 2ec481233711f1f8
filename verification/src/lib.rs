pub mod codec;
pub mod error;
pub mod inject;
pub mod profile;
pub mod releases;
pub mod steam;
pub mod text;
pub mod theme;
