use vstd::prelude::*;

pub mod bits;
pub mod vote_metric;
pub mod similarity;
pub mod votes;
pub mod roles;
pub mod schedule;
pub mod sync;
pub mod content;
pub mod text;
pub mod mutation;
pub mod urls;
pub mod access;
pub mod keyed;
pub mod pretalx;
pub mod query;
pub mod pages;
