//! Nebula: a lightweight container and microVM engine.
pub mod agent;
pub mod answers;
pub mod api;
pub mod autostart;
pub mod backend;
pub mod balloon;
pub mod branch;
pub mod bytes;
pub mod checksum;
pub mod clock;
pub mod commands;
pub mod config;
pub mod contexts;
pub mod creation;
pub mod dates;
pub mod detach;
pub mod display;
pub mod doc;
pub mod double;
pub mod dns;
pub mod engine;
pub mod error;
pub mod guard;
pub mod guest_display;
pub mod guest_init;
pub mod gzip;
pub mod harness;
pub mod http;
pub mod images;
pub mod initramfs;
pub mod instance;
pub mod ipc;
pub mod krun;
pub mod kube;
pub mod lifecycle;
pub mod locate;
pub mod memory;
pub mod net;
pub mod paths;
pub mod pathsetup;
pub mod ports;
pub mod proto;
pub mod report;
pub mod sandbox;
pub mod scale;
pub mod server;
pub mod shutdown;
pub mod snapshots;
pub mod sparse;
pub mod spec;
pub mod spike;
pub mod suite;
pub mod text;
pub mod toml_doc;
pub mod util;
pub mod vessel_cli;
pub mod vessels;
pub mod viewer;
pub mod vz;
