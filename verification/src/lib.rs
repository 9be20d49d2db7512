use vstd::prelude::*;

pub mod text;
pub mod distro;
pub mod auth;
pub mod table;
pub mod crontab;
pub mod docker;
pub mod packages;
pub mod paths;
pub mod files;
pub mod opservice;
pub mod logs;
pub mod network;
pub mod websearch;
pub mod api;
pub mod aimemory;
pub mod ai;
pub mod emotion;
pub mod aitools;
pub mod stream;
pub mod embed;
pub mod monitor;
