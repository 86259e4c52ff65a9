//! NimbusDNS: what a DNS server with encrypted upstreams, ad blocking, a DHCP server and a web panel
//! decides and computes. Sockets, files, databases and clocks are left to the program around it.

pub mod address;
pub mod api;
pub mod auth;
pub mod blocking;
pub mod clock;
pub mod config;
pub mod config_laws;
pub mod database;
pub mod dhcp;
pub mod dns;
pub mod oui;
pub mod over_time;
pub mod process;
pub mod tables;
pub mod text;
pub mod web;
