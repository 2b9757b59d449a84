//! The logic of a small menu-bar notepad, free of any windowing toolkit.
use vstd::prelude::*;

pub mod app_core;
pub mod decimal;
pub mod editor;
pub mod editor_view;
pub mod gestures;
pub mod markdown;
pub mod settings;
pub mod storage;
pub mod text;
pub mod unicode;

verus! {

} // verus!
