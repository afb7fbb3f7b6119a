//! Timeline animation core: keyframe search, playback control, and the
//! timeline data loader, all stated with contracts and proved.

pub mod time;
pub mod value;
pub mod timeline;
pub mod text;
pub mod player;
pub mod entries;
pub mod error;
pub mod json;
pub mod data;
pub mod keyframe;
pub mod material;
pub mod editor;
pub mod tree;
pub mod binding;
pub mod texture;
