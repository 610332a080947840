//! Shared retained UI toolkit: verified identity, invalidation, binding and
//! allocation logic.

pub mod tree;
pub mod reactive;
pub mod animation;
pub mod theme_reads;
pub mod motion_consumers;
pub mod motion;
pub mod input;
pub mod semantics;
pub mod theme;
pub mod layout;
pub mod motion_editor;
pub mod host;
pub mod strings;
pub mod action;
pub mod text;
