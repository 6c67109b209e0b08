pub mod config;
pub mod record;
pub mod text;
pub mod extract;
pub mod enrich;
pub mod output;
