//! Verified core of a fast, interactive commit graph for terminals.
#![allow(unused_imports)]

use vstd::prelude::*;

pub mod animation;
pub mod app;
pub mod author;
pub mod bytes;
pub mod changes_pane;
pub mod commit;
pub mod completion;
pub mod diffstat;
pub mod drawing;
pub mod event_loop;
pub mod footer;
pub mod history;
pub mod history_view;
pub mod ids;
pub mod keys;
pub mod lanes;
pub mod layout;
pub mod look;
pub mod laws;
pub mod loading;
pub mod message;
pub mod metadata;
pub mod navigation;
pub mod ordering;
pub mod paint;
pub mod panes;
pub mod position;
pub mod reachability;
pub mod refresh;
pub mod reword;
pub mod rows;
pub mod screen;
pub mod sections;
pub mod signing;
pub mod signatures;
pub mod summary;
pub mod update;

verus! {

} // verus!
