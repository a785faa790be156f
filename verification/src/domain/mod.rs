//! Domain model: what the admin chooses and what it implies.

pub mod answers;
pub mod build_config;
pub mod components;
pub mod deployment;
pub mod es_backend;
pub mod image_channel;
pub mod mounts;
pub mod platform;
pub mod plugins;
pub mod startmode;

pub use answers::Answers;
pub use build_config::BuildConfig;
pub use components::{Component, Components};
pub use deployment::Deployment;
pub use es_backend::EsBackend;
pub use image_channel::ImageChannel;
pub use mounts::{MountKind, MountSelection};
pub use platform::{Os, Platform, ServiceManagerKind};
pub use startmode::StartMode;
