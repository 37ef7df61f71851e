//! Load generation against range-serving HTTP storage.

pub mod driver;
pub mod gzip;
pub mod header;
pub mod hud;
pub mod random;
pub mod report;
pub mod size;
pub mod text;
pub mod trace;
pub mod transport;
pub mod url;
pub mod user;
pub mod wlcg_token_discovery;
