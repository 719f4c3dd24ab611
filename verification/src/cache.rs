//! Result caching: the expiry arithmetic and the JSON text of a cache row,
//! and the size ceiling enforced when a job's result is read back.
use vstd::prelude::*;
use vstd::string::*;

verus! {

/// A cache row's payload: when it expires, and the raw JSON it stores.
pub struct CacheEntry {
    /// Unix seconds after which the entry is stale.
    pub expire: i64,
    /// The cached raw JSON text.
    pub value_raw: String,
}

/// Computes the expiry of a fresh cache entry: now plus the job's
/// cache-ttl seconds.
pub fn cache_expire(now_unix: i64, cache_ttl: i32) -> (r: i64)
    requires
        now_unix + cache_ttl <= i64::MAX,
        now_unix + cache_ttl >= i64::MIN,
    ensures
        r == now_unix + cache_ttl,
{
    now_unix + (cache_ttl as i64)
}

/// Builds the entry stored for a finished job's result.
pub fn make_cache_entry(now_unix: i64, cache_ttl: i32, raw: String) -> (r: CacheEntry)
    requires
        now_unix + cache_ttl <= i64::MAX,
        now_unix + cache_ttl >= i64::MIN,
    ensures
        r.expire == now_unix + cache_ttl,
        r.value_raw == raw,
{
    CacheEntry { expire: cache_expire(now_unix, cache_ttl), value_raw: raw }
}

/// The JSON text a cache row's `value` column holds: an object with the
/// expiry under `expire` and the raw JSON under `value`.
pub open spec fn cache_entry_json(expire: int, raw: Seq<char>) -> Seq<char> {
    "{\"expire\":"@.add(crate::text::int_rep(expire)).add(",\"value\":"@).add(raw).add("}"@)
}

/// Renders a cache entry as the JSON text stored in its row.
pub fn render_cache_entry(entry: &CacheEntry) -> (r: String)
    ensures
        r@ == cache_entry_json(entry.expire as int, entry.value_raw@),
{
    let mut s = String::from_str("{\"expire\":");
    s.append(crate::text::i64_to_string(entry.expire).as_str());
    s.append(",\"value\":");
    s.append(entry.value_raw.as_str());
    s.append("}");
    proof {
        assert(s@ =~= cache_entry_json(entry.expire as int, entry.value_raw@));
    }
    s
}

/// Whether a result of `len` bytes exceeds the cloud ceiling.
pub open spec fn result_too_large(len: nat, cloud_hosted: bool) -> bool {
    cloud_hosted && len > crate::MAX_RESULT_SIZE
}

/// Enforces the result-size ceiling: cloud-hosted results above
/// `MAX_RESULT_SIZE` bytes are rejected with the fixed message; everything
/// else passes.
pub fn check_result_size(len: usize, cloud_hosted: bool) -> (r: Result<(), crate::error::Error>)
    ensures
        r is Ok <==> !result_too_large(len as nat, cloud_hosted),
        (match r {
            Ok(u) => true,
            Err(e) => e is ExecutionErr && e.spec_message()
                == "Result is too large for the cloud app (limit 2MB).\n        If using this script as part of the flow, use the shared folder to pass heavy data between steps."@,
        }),
{
    if cloud_hosted && len > crate::MAX_RESULT_SIZE {
        Err(
            crate::error::Error::ExecutionErr(
                String::from_str(
                    "Result is too large for the cloud app (limit 2MB).\n        If using this script as part of the flow, use the shared folder to pass heavy data between steps.",
                ),
            ),
        )
    } else {
        Ok(())
    }
}

} // verus!
