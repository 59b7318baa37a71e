//! A local datastore for timestamped activity events kept in named buckets:
//! a bucket-metadata cache kept in step with durable storage, range queries
//! with boundary clipping, heartbeat merging and a no-overlap union of event
//! sequences.
use vstd::prelude::*;

pub mod interval;
pub mod event;
pub mod bucket;
pub mod heartbeat;
pub mod union_no_overlap;
pub mod datastore;
pub mod schema;


verus! {

} // verus!
