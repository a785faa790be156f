//! Configuration logic for an Arkime installation: the wizard's step flow, the
//! component/mount/plugin rules, `.ini` and `ARKIME__*` env document merging,
//! and the native/docker apply plans. Everything here is verified; terminal and
//! filesystem work lives in the application around it.

pub mod actions;
pub mod app;
pub mod config;
pub mod docset;
pub mod domain;
pub mod guards;
pub mod interfaces;
pub mod text;
pub mod log;
pub mod steps;
pub mod ui;
pub mod wizard;
pub mod yaml;
