//! Tenant-agnostic passthrough: requests for the indices an operator lists are
//! forwarded verbatim to one cluster; all others keep full tenancy.

use crate::admin::is_verbatim;
use crate::text::{starts_with, views};
use crate::types::{clone_bytes, clone_text, opt, CursorOp, RequestCtx};
use vstd::prelude::*;

verus! {

/// Which indices pass through, and to which cluster.
#[derive(Debug)]
pub struct PassthroughPolicy {
    pub cluster: String,
    /// The cluster's base URL.
    pub endpoint: Option<String>,
    /// The index prefixes that pass through; none stands for every index.
    pub index_prefixes: Vec<String>,
}

impl PassthroughPolicy {
    pub open spec fn prefixes(self) -> Seq<Seq<char>> {
        views(self.index_prefixes@)
    }

    /// A request for `index` passes through: there is no prefix at all, or it begins
    /// with one.
    pub open spec fn selects(self, index: Seq<char>) -> bool {
        self.prefixes().len() == 0 || exists|i: int|
            0 <= i < self.prefixes().len() && (#[trigger] self.prefixes()[i]).is_prefix_of(index)
    }

    /// Lets every request through to `cluster`.
    pub fn new(cluster: String, endpoint: String) -> (r: Self)
        ensures
            r.cluster == cluster,
            r.endpoint == Some(endpoint),
            r.prefixes() == Seq::<Seq<char>>::empty(),
    {
        let r = PassthroughPolicy { cluster, endpoint: Some(endpoint), index_prefixes: Vec::new() };
        assert(r.prefixes() =~= Seq::<Seq<char>>::empty());
        r
    }

    /// The policy restricted to indices that begin with one of `prefixes`.
    pub fn with_index_prefixes(self, prefixes: Vec<String>) -> (r: Self)
        ensures
            r.cluster == self.cluster,
            r.endpoint == self.endpoint,
            r.prefixes() == views(prefixes@),
    {
        PassthroughPolicy {
            cluster: self.cluster,
            endpoint: self.endpoint,
            index_prefixes: prefixes,
        }
    }

    /// Whether the request passes through.
    pub fn matches(&self, ctx: &RequestCtx) -> (r: bool)
        ensures
            r == self.selects(ctx.logical_index@),
    {
        self.matches_index(ctx.logical_index.as_str())
    }

    /// Whether a request for `logical_index` passes through.
    pub fn matches_index(&self, logical_index: &str) -> (r: bool)
        ensures
            r == self.selects(logical_index@),
    {
        if self.index_prefixes.len() == 0 {
            return true;
        }
        let mut i: usize = 0;
        while i < self.index_prefixes.len()
            invariant
                0 <= i <= self.index_prefixes@.len(),
                self.index_prefixes@.len() > 0,
                forall|j: int|
                    0 <= j < i ==> !(#[trigger] self.prefixes()[j]).is_prefix_of(logical_index@),
            decreases self.index_prefixes@.len() - i,
        {
            assert(self.prefixes()[i as int] == self.index_prefixes@[i as int]@);
            if starts_with(logical_index, self.index_prefixes[i].as_str()) {
                return true;
            }
            i += 1;
        }
        assert(self.prefixes().len() == self.index_prefixes@.len());
        false
    }

    /// The request as it is forwarded: nothing of it is rewritten.
    pub fn forward(&self, ctx: &RequestCtx) -> (r: CursorOp)
        ensures
            is_verbatim(r, *ctx, self.cluster@),
            opt(r.endpoint) == opt(self.endpoint),
            r.protocol == Some(ctx.protocol),
    {
        CursorOp {
            cluster: self.cluster.clone(),
            method: ctx.method.clone(),
            path: ctx.path.clone(),
            body: clone_bytes(ctx.body.as_slice()),
            endpoint: clone_text(&self.endpoint),
            query: clone_text(&ctx.query),
            protocol: Some(ctx.protocol),
        }
    }
}

/// With prefixes configured, an index that begins with none of them keeps its
/// tenancy: the policy fails closed.
pub proof fn law_unlisted_indices_stay_isolated(policy: PassthroughPolicy, index: Seq<char>)
    requires
        policy.prefixes().len() > 0,
        forall|i: int|
            0 <= i < policy.prefixes().len() ==> !(#[trigger] policy.prefixes()[i]).is_prefix_of(
                index,
            ),
    ensures
        !policy.selects(index),
{
}

} // verus!
