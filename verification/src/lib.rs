//! Verified core of a FireHOL list service for nftables.

pub mod blocks;
pub mod config;
pub mod contents;
pub mod cycle;
pub mod delta;
pub mod feeds;
pub mod github;
pub mod ipset;
pub mod json;
pub mod listing;
pub mod net;
pub mod netset;
pub mod objects;
pub mod outside;
pub mod policy;
pub mod restore;
pub mod scheduler;
pub mod service;
pub mod text;
pub mod update;
pub mod whitelist;
pub mod windows;
