//! The core of a reverse proxy and web server: load balancing with circuit
//! breakers, rate limiting, request screening, static files and TLS set-up.
pub mod client;
pub mod clock;
pub mod config;
pub mod dates;
pub mod error;
pub mod headers;
pub mod health_check;
pub mod health_check_laws;
pub mod listener;
pub mod load_balancer;
pub mod load_balancer_laws;
pub mod paths;
pub mod proxy;
pub mod proxy_laws;
pub mod rate_limit;
pub mod reply;
pub mod request;
pub mod security;
pub mod security_laws;
pub mod shared_map;
pub mod ssl;
pub mod static_files;
pub mod static_files_laws;
pub mod text;
pub mod text_laws;
