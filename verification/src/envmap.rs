//! The child's environment map: the reserved context variables overlaid
//! with the worker-wide overrides. The map is a pair list where the last
//! binding of a name wins, so appending the overrides makes them prevail.
use vstd::prelude::*;
use vstd::string::*;
use crate::hash::pair_views;

verus! {

/// Last-match lookup of `key`: the binding that prevails in an
/// insertion-ordered environment.
pub open spec fn env_lookup(pairs: Seq<(Seq<char>, Seq<char>)>, key: Seq<char>) -> Option<
    Seq<char>,
>
    decreases pairs.len(),
{
    if pairs.len() == 0 {
        None
    } else if pairs.last().0 == key {
        Some(pairs.last().1)
    } else {
        env_lookup(pairs.drop_last(), key)
    }
}

/// Builds the child's environment: the context bindings first, the worker
/// overrides after them, so an override wins over a context binding of the
/// same name.
pub fn build_envs_map(context: Vec<(String, String)>, overrides: &Vec<(String, String)>) -> (r: Vec<
    (String, String),
>)
    ensures
        pair_views(r@) == pair_views(context@).add(pair_views(overrides@)),
{
    let mut r = context;
    let mut i: usize = 0;
    let ghost base = r@;
    while i < overrides.len()
        invariant
            i <= overrides@.len(),
            r@.len() == base.len() + i,
            forall|x: int| 0 <= x < base.len() ==> #[trigger] r@[x] == base[x],
            forall|x: int|
                0 <= x < i ==> (#[trigger] r@[base.len() + x]).0@ == overrides@[x].0@ && r@[base.len()
                    + x].1@ == overrides@[x].1@,
        decreases overrides@.len() - i,
    {
        r.push((overrides[i].0.clone(), overrides[i].1.clone()));
        i += 1;
    }
    proof {
        let lhs = pair_views(r@);
        let rhs = pair_views(base).add(pair_views(overrides@));
        assert forall|x: int| 0 <= x < lhs.len() implies lhs[x] == rhs[x] by {
            if x < base.len() {
                assert(lhs[x] =~= rhs[x]);
            } else {
                let o = x - base.len();
                assert(r@[base.len() + o].0@ == overrides@[o].0@ && r@[base.len() + o].1@
                    == overrides@[o].1@);
                assert(lhs[x] == (r@[x].0@, r@[x].1@));
                assert(rhs[x] == (overrides@[o].0@, overrides@[o].1@));
                assert(lhs[x] =~= rhs[x]);
            }
        }
        assert(lhs =~= rhs);
    }
    r
}

/// Looks a name up in a built environment; the last binding wins.
pub fn env_value(pairs: &Vec<(String, String)>, key: &str) -> (r: Option<String>)
    ensures
        (match (r, env_lookup(pair_views(pairs@), key@)) {
            (Some(v), Some(sv)) => v@ == sv,
            (None, None) => true,
            _ => false,
        }),
{
    let ghost pv = pair_views(pairs@);
    let mut i: usize = pairs.len();
    proof {
        assert(pv.take(pv.len() as int) =~= pv);
    }
    while i > 0
        invariant
            i <= pairs@.len(),
            pv == pair_views(pairs@),
            env_lookup(pv, key@) == env_lookup(pv.take(i as int), key@),
        decreases i,
    {
        proof {
            assert(pv.take(i as int).last() == pv[i as int - 1]);
            assert(pv.take(i as int).drop_last() =~= pv.take(i as int - 1));
        }
        if crate::text::str_eq(pairs[i - 1].0.as_str(), key) {
            return Some(pairs[i - 1].1.clone());
        }
        i -= 1;
    }
    None
}

/// An override always prevails: looking a name up in the built environment
/// finds the override's value when one exists, and the context's value
/// otherwise.
pub proof fn lemma_envs_override(
    context: Seq<(Seq<char>, Seq<char>)>,
    overrides: Seq<(Seq<char>, Seq<char>)>,
    key: Seq<char>,
)
    ensures
        env_lookup(context.add(overrides), key) == (match env_lookup(overrides, key) {
            Some(v) => Some(v),
            None => env_lookup(context, key),
        }),
    decreases overrides.len(),
{
    if overrides.len() == 0 {
        assert(context.add(overrides) =~= context);
    } else {
        let all = context.add(overrides);
        assert(all.last() == overrides.last());
        assert(all.drop_last() =~= context.add(overrides.drop_last()));
        lemma_envs_override(context, overrides.drop_last(), key);
    }
}

} // verus!
