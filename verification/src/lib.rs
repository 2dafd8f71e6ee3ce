//! Verified core of the stayhydated site and its release tooling.
use vstd::prelude::*;

pub mod text;
pub mod routing;
pub mod sitemap;
pub mod graph;
pub mod release;
pub mod paths;
pub mod web_build;
pub mod llms;
pub mod site;
pub mod projects;
pub mod layout;

verus! {

} // verus!
