use vstd::prelude::*;
use vstd::string::*;

use crate::text::{split_on, split_trimmed, trim};

verus! {

/// How the caching tier is to be reached, decided from `REDIS_URL` and
/// `REDIS_CLUSTER` before any connection is attempted.
pub enum CachePlan {
    /// No Redis is configured: every cache operation is a no-op.
    Disabled,
    /// A Redis Cluster reached through these node addresses.
    Cluster(Vec<String>),
    /// A single Redis node at this URL.
    Single(String),
}

/// Whether the Redis client accepts `url` as a connection address; what
/// `redis::Client::open` checks (scheme, host, port, database, credentials, protocol)
/// before any connection is made.
pub uninterp spec fn redis_url_accepted(url: Seq<char>) -> bool;

/// Whether the Redis cluster client accepts `nodes` as its initial nodes; what
/// `redis::cluster::ClusterClient::new` checks before any connection is made.
pub uninterp spec fn cluster_nodes_accepted(nodes: Seq<Seq<char>>) -> bool;

/// Calls `redis::Client::open`, which parses `url` into connection settings
/// without touching the network, and reports whether it succeeded. The source
/// shows that an empty text never parses. Which other texts parse is not stated:
/// it is the URL grammar of the `url` crate and the checks of the Redis client.
#[verifier::external_body]
fn check_redis_url(url: &str) -> (ok: bool)
    ensures
        ok == redis_url_accepted(url@),
        url@.len() == 0 ==> !ok,
{
    redis::Client::open(url).is_ok()
}

/// Calls `redis::cluster::ClusterClient::new`, which parses each node address and
/// checks that the nodes agree on credentials, protocol, database and TLS, without
/// touching the network, and reports whether it succeeded. The source shows that
/// it fails on an empty list and on any node that `redis::Client::open` refuses,
/// an empty node among them; the rest of its checks are not stated.
#[verifier::external_body]
fn check_cluster_nodes(nodes: &Vec<String>) -> (ok: bool)
    ensures
        ok == cluster_nodes_accepted(nodes@.map_values(|s: String| s@)),
        ok ==> nodes@.len() > 0,
        ok ==> forall|i: int|
            0 <= i < nodes@.len() ==> redis_url_accepted(#[trigger] nodes@[i]@) && nodes@[i]@.len() > 0,
{
    redis::cluster::ClusterClient::new(nodes.clone()).is_ok()
}

/// Decides how to reach the caching tier. Without a URL the tier is disabled; in
/// cluster mode the URL is a comma-separated list whose entries are trimmed and
/// passed on as they are, empty ones included; otherwise it names one node. Where
/// the Redis client refuses the address or the node list, the tier is disabled, so
/// a bad configuration degrades to a no-op cache.
pub fn plan_cache(url: Option<&str>, cluster: bool) -> (plan: CachePlan)
    ensures
        match url {
            None => plan is Disabled,
            Some(u) => if cluster {
                let nodes = split_on(u@, ',').map_values(|p| trim(p));
                &&& cluster_nodes_accepted(nodes) ==> (plan matches CachePlan::Cluster(ns)
                    && ns@.map_values(|x: String| x@) == nodes)
                &&& !cluster_nodes_accepted(nodes) ==> plan is Disabled
                &&& (exists|i: int| 0 <= i < nodes.len() && (#[trigger] nodes[i]).len() == 0)
                    ==> plan is Disabled
            } else {
                if redis_url_accepted(u@) {
                    &&& plan matches CachePlan::Single(s)
                    &&& s@ == u@
                } else {
                    plan is Disabled
                }
            },
        },
{
    match url {
        None => CachePlan::Disabled,
        Some(u) => if cluster {
            let nodes = split_trimmed(u);
            if check_cluster_nodes(&nodes) {
                CachePlan::Cluster(nodes)
            } else {
                CachePlan::Disabled
            }
        } else {
            if check_redis_url(u) {
                CachePlan::Single(u.to_owned())
            } else {
                CachePlan::Disabled
            }
        },
    }
}

/// The cache key that marks an event id as seen.
pub open spec fn dedupe_key_spec(event_id: Seq<char>) -> Seq<char> {
    "telemetry:seen:"@ + event_id
}

/// A dedupe key is the prefix `telemetry:seen:` followed by the whole event id:
/// dropping the prefix gives the id back.
pub proof fn lemma_dedupe_key_recovers_event_id(event_id: Seq<char>)
    ensures
        dedupe_key_spec(event_id).len() == "telemetry:seen:"@.len() + event_id.len(),
        dedupe_key_spec(event_id).take("telemetry:seen:"@.len() as int) == "telemetry:seen:"@,
        dedupe_key_spec(event_id).skip("telemetry:seen:"@.len() as int) == event_id,
{
    let prefix = "telemetry:seen:"@;
    let key = dedupe_key_spec(event_id);
    assert(key.take(prefix.len() as int) =~= prefix);
    assert(key.skip(prefix.len() as int) =~= event_id);
}

/// Distinct event ids never share a dedupe key, so one event is never taken for
/// a duplicate of another.
pub proof fn lemma_dedupe_keys_distinct(a: Seq<char>, b: Seq<char>)
    ensures
        a != b ==> dedupe_key_spec(a) != dedupe_key_spec(b),
{
    lemma_dedupe_key_recovers_event_id(a);
    lemma_dedupe_key_recovers_event_id(b);
}

/// Builds the cache key that marks `event_id` as seen.
pub fn dedupe_key(event_id: &str) -> (key: String)
    ensures
        key@ == dedupe_key_spec(event_id@),
        key@.take("telemetry:seen:"@.len() as int) == "telemetry:seen:"@,
        key@.skip("telemetry:seen:"@.len() as int) == event_id@,
{
    proof {
        lemma_dedupe_key_recovers_event_id(event_id@);
    }
    let mut key = "telemetry:seen:".to_owned();
    key.append(event_id);
    key
}

/// The cache key of the global processed-elements counter.
pub fn processed_total_key() -> (key: String)
    ensures
        key@ == "telemetry:processed_total"@,
{
    "telemetry:processed_total".to_owned()
}

/// What the caching tier answered to `SET key 1 NX EX ttl`.
pub enum SetNxReply {
    /// The key was absent and is now set.
    Stored,
    /// The key was already set within its window.
    AlreadySet,
    /// The command failed (connection or protocol error).
    Failed,
}

/// Whether a cache answer (`None` for a disabled tier) lets an event through as new.
pub open spec fn reply_means_new(reply: Option<SetNxReply>) -> bool {
    !(reply matches Some(SetNxReply::AlreadySet))
}

/// Whether an event is new within the deduplication window, given the cache's
/// answer, or `None` when the caching tier is disabled. Only a key that was
/// already set marks a duplicate: a disabled tier and a failed command both count
/// as new, so ingestion is never blocked by the cache.
pub fn is_new_event(reply: Option<SetNxReply>) -> (is_new: bool)
    ensures
        is_new == reply_means_new(reply),
{
    match reply {
        Some(SetNxReply::AlreadySet) => false,
        _ => true,
    }
}

/// Whether the event bus is to connect: only when bootstrap brokers are given.
pub fn event_bus_enabled(bootstrap: &[String]) -> (enabled: bool)
    ensures
        enabled == (bootstrap@.len() > 0),
{
    bootstrap.len() > 0
}

} // verus!
