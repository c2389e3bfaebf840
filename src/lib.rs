//! A relay server's core: named rendezvous pipes between two HTTP clients,
//! and the path rules of its upload routes.

pub mod notify;
pub mod path;
pub mod pipe;
pub mod registry;
pub mod relay;
pub mod upload;

use vstd::prelude::*;

verus! {

/// The text held by each string of a list.
pub open spec fn string_views(v: Seq<String>) -> Seq<Seq<char>> {
    v.map_values(|s: String| s@)
}

} // verus!
