//! Container specs for the Podman driver, built and proved.
pub mod binary64;
pub mod container;
pub mod container_spec;
pub mod contents;
pub mod cores;
pub mod digits;
pub mod document;
pub mod json;
pub mod laws;
pub mod quantity;
pub mod sandbox;
pub mod string_map;
pub mod text;
pub mod views;
