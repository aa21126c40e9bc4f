pub mod config;
pub mod fonts;
pub mod paths;
pub mod routes;
pub mod server;
pub mod text;
pub mod tls;
pub mod util;
