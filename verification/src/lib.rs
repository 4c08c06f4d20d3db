//! A mock service-discovery control plane for driving data-plane proxy
//! tests.
//!
//! The crate keeps an authoritative table of per-routing-key endpoint
//! snapshots, publishes whole-snapshot updates, and turns consecutive
//! snapshots into minimal add/remove protocol events for each
//! subscriber; a filesystem reconciler derives publishes and retracts
//! from directory changes, and a static identity service answers
//! certificate lookups.

use vstd::prelude::*;

mod codec;
mod config;
mod diff;
mod dst;
mod endpoints;
mod identity;
mod kv;
mod store;
mod text;
mod watcher;

pub use codec::{
    arr_view, json_of, json_view, obj_get, obj_view, spec_decode_record, spec_decode_records,
    yaml_of, DecodeError, Json, JsonV,
};
pub use config::{EndpointsSpec, OverridesSpec, ParseError};
pub use diff::{
    added_set, addr_in_metas, changed_from, diff_endpoints, encode_meta, encode_profile,
    encoded_added, gone_filter, is_add_event, is_remove_event, lemma_diff_idempotent,
    lemma_observe_idempotent,
    profile_of, profile_view, removed_set, spec_added, spec_encode_meta, spec_removed, spec_step,
    updates_view, ProfileMsg, Subscriber, Update, UpdateV, WAddrV, WeightedAddr,
};
pub use dst::{
    dst_spec_str, lemma_dst_render_parses_back, spec_parse_addr, spec_parse_dst, Address, Dst,
    DstV,
};
pub use endpoints::{
    eps_pairs, meta_pairs, ovr_pairs, EndpointMeta, Endpoints, MetaV, Overrides,
};
pub use identity::{parse_cert_chain, pem_of, Certificates, CertsError, CertsV, IdentityService};
pub use kv::{kv_map, kv_unique};
pub use store::{lemma_retract_forgets_key, DstService};
pub use watcher::{parsed_tree, spec_parse_file_name, FileType, FsAction, FsWatcher, FsWatcherError};

verus! {

/// The two services of the control plane, ready to be served together.
#[derive(Debug)]
pub struct Controller {
    pub dst_svc: DstService,
    pub identity_svc: IdentityService,
}

impl Controller {
    /// Pairs a destination service with an identity service.
    pub fn new(dst_svc: DstService, identity_svc: IdentityService) -> (r: Controller)
        ensures
            r.dst_svc == dst_svc,
            r.identity_svc == identity_svc,
    {
        Controller { dst_svc, identity_svc }
    }
}

} // verus!
