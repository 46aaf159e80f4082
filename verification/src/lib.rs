//! Core logic of the Calyx engine and editor: thumbnail scheduling, asset
//! bookkeeping, text encodings and list editing, each stated and proved.

#![allow(unused_imports)]

pub mod thumbnail_key;
pub mod keyed_list;
pub mod table;
pub mod asset_paths;
pub mod asset_registry;
pub mod readback;
pub mod texture_readback;
pub mod asset_laws;
pub mod source_version;
pub mod bind_groups;

pub mod thumbnail_pipeline;
pub mod thumbnail_laws;
pub mod thumbnail_service;
pub mod text;
pub mod digest;
pub mod thumbnail_request;
pub mod json_refs;
pub mod errors;
pub mod list_edit;
pub mod animation;
pub mod material;
pub mod shader_reflect;
