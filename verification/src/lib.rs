//! A socket-activated daemon that runs a network of Minecraft servers in the windows of one tmux
//! session, behind a single Velocity proxy: its rules and its state machines.
pub mod bluemap;
pub mod config;
pub mod connect;
pub mod monitor;
pub mod number;
pub mod outside;
pub mod path;
pub mod socket;
pub mod text;
pub mod tmux;
