use vstd::prelude::*;

pub mod capture;
pub mod cli;
pub mod counts;
pub mod crawler;
pub mod email;
pub mod fetcher;
pub mod html;
pub mod metadata;
pub mod order;
pub mod scan;
pub mod spider;
pub mod text;
pub mod tree;
pub mod urls;
pub mod words;

verus! {

} // verus!
