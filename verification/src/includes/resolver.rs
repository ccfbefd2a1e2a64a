//! The admission checks of the include resolve pass: before a resolve
//! handler is dispatched for an invocation, the invocation must not repeat
//! one already on the active chain, the chain must be shallower than the
//! effective depth limit, and the total number of resolved invocations must
//! be below its limit.
use vstd::prelude::*;
use std::path::PathBuf;
use super::errors::IncludeError;
use super::loaders::{paths_equal, same_path};
use super::paths::{path_from, path_from_str};
use super::{ResolveConfig, KERNEL_DEPTH_BACKSTOP};
use crate::location::{Position, Range};

verus! {

/// The identity of an invocation on the resolution chain: its label, the
/// file it was authored in (when known) and its start position.
#[derive(Debug, Clone)]
pub struct ResolveKey {
    pub label: String,
    pub origin: Option<PathBuf>,
    pub start: Position,
}

/// Whether two keys are equal (labels, origins as paths, start positions).
pub open spec fn same_key(a: ResolveKey, b: ResolveKey) -> bool {
    &&& a.label@ == b.label@
    &&& match (a.origin, b.origin) {
        (None, None) => true,
        (Some(x), Some(y)) => paths_equal(x, y),
        _ => false,
    }
    &&& a.start == b.start
}

/// Whether `key` is already on the chain.
pub open spec fn on_chain(chain: Seq<ResolveKey>, key: ResolveKey) -> bool {
    exists|i: int| 0 <= i < chain.len() && same_key(#[trigger] chain[i], key)
}

/// A key's origin, or the empty path.
pub open spec fn origin_or_empty(o: Option<PathBuf>) -> PathBuf {
    match o {
        Some(p) => p,
        None => path_from(""@),
    }
}

/// Whether `c` lists the origins of the chain's keys, in order.
pub open spec fn chain_origins(c: Seq<PathBuf>, chain: Seq<ResolveKey>) -> bool {
    c.len() == chain.len() && forall|i: int| 0 <= i < chain.len() ==> #[trigger] c[i] == origin_or_empty(chain[i].origin)
}

/// The depth limit in force: the configured one, capped by the kernel backstop.
pub open spec fn effective_depth_limit(max_depth: usize) -> usize {
    if max_depth < KERNEL_DEPTH_BACKSTOP { max_depth } else { KERNEL_DEPTH_BACKSTOP }
}

/// Whether two keys are equal.
fn key_eq(a: &ResolveKey, b: &ResolveKey) -> (r: bool)
    ensures
        r == same_key(*a, *b),
{
    if !crate::text::str_eq(a.label.as_str(), b.label.as_str()) {
        return false;
    }
    let origins = match (&a.origin, &b.origin) {
        (None, None) => true,
        (Some(x), Some(y)) => same_path(x, y),
        _ => false,
    };
    origins && a.start.line == b.start.line && a.start.column == b.start.column
}

/// A key's origin, or the empty path.
fn origin_path(o: &Option<PathBuf>) -> (p: PathBuf)
    ensures
        p == origin_or_empty(*o),
{
    match o {
        Some(p) => p.clone(),
        None => path_from_str(""),
    }
}

/// The origins of the chain's keys.
fn origins_of(chain: &Vec<ResolveKey>) -> (c: Vec<PathBuf>)
    ensures
        chain_origins(c@, chain@),
{
    let mut c: Vec<PathBuf> = Vec::new();
    let mut i: usize = 0;
    while i < chain.len()
        invariant
            i <= chain@.len(),
            c@.len() == i,
            forall|k: int| 0 <= k < i ==> #[trigger] c@[k] == origin_or_empty(chain@[k].origin),
        decreases chain@.len() - i,
    {
        c.push(origin_path(&chain[i].origin));
        i += 1;
    }
    c
}

/// Decide whether the invocation `key` at `include_site` may be dispatched:
/// a key already on `chain` is a cycle; a `depth` at or past the effective
/// depth limit, or a `total_resolved` at or past the configured total, is
/// refused; otherwise the invocation is admitted.
pub fn admit_invocation(
    key: &ResolveKey,
    chain: &Vec<ResolveKey>,
    include_site: &Range,
    depth: usize,
    total_resolved: usize,
    config: &ResolveConfig,
) -> (r: Result<(), IncludeError>)
    ensures
        on_chain(chain@, *key) ==> (r matches Err(IncludeError::Cycle { include_site: s, path, chain: c })
            && s == *include_site && path == origin_or_empty(key.origin) && chain_origins(c@, chain@)),
        !on_chain(chain@, *key) && depth >= effective_depth_limit(config.max_depth) ==> (
            r matches Err(IncludeError::DepthExceeded { include_site: s, limit, chain: c }) && s == *include_site
                && limit == effective_depth_limit(config.max_depth) && chain_origins(c@, chain@)),
        !on_chain(chain@, *key) && depth < effective_depth_limit(config.max_depth) && total_resolved
            >= config.max_total_includes ==> r == Err::<(), IncludeError>(
            IncludeError::TotalIncludesExceeded { include_site: *include_site, limit: config.max_total_includes },
        ),
        !on_chain(chain@, *key) && depth < effective_depth_limit(config.max_depth) && total_resolved
            < config.max_total_includes ==> r == Ok::<(), IncludeError>(()),
{
    let mut i: usize = 0;
    while i < chain.len()
        invariant
            i <= chain@.len(),
            forall|k: int| 0 <= k < i ==> !same_key(#[trigger] chain@[k], *key),
        decreases chain@.len() - i,
    {
        if key_eq(&chain[i], key) {
            return Err(IncludeError::Cycle {
                include_site: include_site.clone(),
                path: origin_path(&key.origin),
                chain: origins_of(chain),
            });
        }
        i += 1;
    }
    let limit = if config.max_depth < KERNEL_DEPTH_BACKSTOP { config.max_depth } else { KERNEL_DEPTH_BACKSTOP };
    if depth >= limit {
        return Err(IncludeError::DepthExceeded { include_site: include_site.clone(), limit, chain: origins_of(chain) });
    }
    if total_resolved >= config.max_total_includes {
        return Err(IncludeError::TotalIncludesExceeded { include_site: include_site.clone(), limit: config.max_total_includes });
    }
    Ok(())
}

/// Count one more resolved invocation, after its handler returned content.
pub fn record_resolved(total_resolved: &mut usize)
    requires
        *old(total_resolved) < usize::MAX,
    ensures
        *final(total_resolved) == *old(total_resolved) + 1,
{
    *total_resolved = *total_resolved + 1;
}

/// Step into an admitted invocation before resolving its spliced content:
/// its key goes on the chain and the depth grows by one. Returns the depth
/// to restore on the way out.
pub fn enter_invocation(chain: &mut Vec<ResolveKey>, depth: &mut usize, key: ResolveKey) -> (saved: usize)
    requires
        *old(depth) < usize::MAX,
    ensures
        final(chain)@ == old(chain)@.push(key),
        *final(depth) == *old(depth) + 1,
        saved == *old(depth),
{
    chain.push(key);
    let saved = *depth;
    *depth = saved + 1;
    saved
}

/// Step back out of an invocation once its spliced content is resolved:
/// the depth returns to `saved` and the invocation's key leaves the chain.
pub fn leave_invocation(chain: &mut Vec<ResolveKey>, depth: &mut usize, saved: usize)
    requires
        old(chain)@.len() > 0,
    ensures
        final(chain)@ == old(chain)@.drop_last(),
        *final(depth) == saved,
{
    *depth = saved;
    chain.pop();
}

/// Leaving undoes entering: a chain and depth as `enter_invocation` leaves
/// them, then as `leave_invocation` leaves them with the saved depth, are
/// the chain and depth from before.
pub proof fn lemma_leave_undoes_enter(
    chain0: Seq<ResolveKey>,
    depth0: int,
    key: ResolveKey,
    chain1: Seq<ResolveKey>,
    saved: int,
    chain2: Seq<ResolveKey>,
    depth2: int,
)
    requires
        chain1 == chain0.push(key),
        saved == depth0,
        chain2 == chain1.drop_last(),
        depth2 == saved,
    ensures
        chain2 == chain0,
        depth2 == depth0,
{
    assert(chain0.push(key).drop_last() =~= chain0);
}

} // verus!
