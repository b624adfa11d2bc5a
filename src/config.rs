//! One configured repository: source and destination templates and tags.
use vstd::prelude::*;

use crate::tags::{UrlMux, clone_field, distinct_tags, field_view_of};

verus! {

/// A repository to mirror, for every combination of its tags' variants.
#[derive(Debug)]
pub struct Config {
    /// Source URL template.
    pub src: String,
    /// Destination path template.
    pub dest: String,
    /// The tags, in configuration order, each with its variants.
    pub tags: Vec<(String, Vec<String>)>,
}

impl Config {
    /// The generator of the (source, destination) pairs to synchronise.
    pub fn url_mux(&self) -> (r: UrlMux)
        requires
            distinct_tags(field_view_of(self.tags@)),
        ensures
            r.wf(),
            r.source() == self.src@,
            r.destination() == self.dest@,
            r.field() == field_view_of(self.tags@),
            r.position() == 0,
    {
        UrlMux::new(self.src.as_str(), self.dest.as_str(), clone_field(&self.tags))
    }
}

} // verus!
