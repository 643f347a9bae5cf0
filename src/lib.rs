//! Ordering and navigation core of a comic and image viewer.
//!
//! - `natural`: the natural order of names, where digit runs compare by value.
//! - `names`: which names are images and which are archives.
//! - `collection`: the stable natural sort and the lists built from listings.
//! - `nav`: the navigation state machine over a collection and an archive chain.
//! - `archive`: member names and member bytes of an archive held in memory.
//! - `picture`: decoding images to RGBA pixels.
//! - `text`: small utilities over the characters of strings.
use vstd::prelude::*;

pub mod archive;
pub mod collection;
pub mod names;
pub mod natural;
pub mod nav;
pub mod picture;
pub mod text;

verus! {

} // verus!
