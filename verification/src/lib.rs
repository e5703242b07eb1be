//! Core logic of the bypass-hub backend: route-list distribution formats
//! (geosite/geoip protobuf files and RouterOS scripts), WireGuard peer
//! address allocation, request validation and admin sessions.

pub mod geo;
pub mod grouping;
pub mod models;
pub mod onboarding;
pub mod protobuf;
pub mod requests;
pub mod script;
pub mod script_build;
pub mod session;
pub mod text;
pub mod wireguard;
