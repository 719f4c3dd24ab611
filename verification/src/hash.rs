//! Hashing of a job's argument map for cache keying: keys are sorted, each
//! key's bytes and its raw value's bytes are fed to the hasher in that
//! order, and the 64-bit result is rendered as big-endian hex. The hash is
//! a function of the map's contents alone, not of insertion order.
use vstd::prelude::*;
use vstd::relations::{sorted_by, total_ordering};
use vstd::seq_lib::lemma_sorted_unique;
use vstd::std_specs::hash::DefaultHasherAdditionalSpecFns;
use std::collections::hash_map::DefaultHasher;
use std::hash::Hasher;

verus! {

/// Lexicographic order on character sequences, by Unicode code point.
pub open spec fn lex_leq(a: Seq<char>, b: Seq<char>) -> bool
    decreases a.len(),
{
    if a.len() == 0 {
        true
    } else if b.len() == 0 {
        false
    } else if a[0] < b[0] {
        true
    } else if a[0] > b[0] {
        false
    } else {
        lex_leq(a.drop_first(), b.drop_first())
    }
}

proof fn lemma_lex_refl(a: Seq<char>)
    ensures
        lex_leq(a, a),
    decreases a.len(),
{
    if a.len() > 0 {
        lemma_lex_refl(a.drop_first());
    }
}

proof fn lemma_lex_total(a: Seq<char>, b: Seq<char>)
    ensures
        lex_leq(a, b) || lex_leq(b, a),
    decreases a.len(),
{
    if a.len() > 0 && b.len() > 0 && a[0] == b[0] {
        lemma_lex_total(a.drop_first(), b.drop_first());
    }
}

proof fn lemma_lex_antisym(a: Seq<char>, b: Seq<char>)
    requires
        lex_leq(a, b),
        lex_leq(b, a),
    ensures
        a == b,
    decreases a.len(),
{
    if a.len() == 0 {
        assert(b.len() == 0);
        assert(a =~= b);
    } else {
        assert(a[0] == b[0]);
        lemma_lex_antisym(a.drop_first(), b.drop_first());
        let at = a.drop_first();
        let bt = b.drop_first();
        assert forall|i: int| 0 <= i < a.len() implies a[i] == b[i] by {
            if i > 0 {
                assert(a[i] == at[i - 1]);
                assert(b[i] == bt[i - 1]);
            }
        }
        assert(a =~= b);
    }
}

proof fn lemma_lex_trans(a: Seq<char>, b: Seq<char>, c: Seq<char>)
    requires
        lex_leq(a, b),
        lex_leq(b, c),
    ensures
        lex_leq(a, c),
    decreases a.len(),
{
    if a.len() > 0 && b.len() > 0 && c.len() > 0 {
        if a[0] == b[0] && b[0] == c[0] {
            lemma_lex_trans(a.drop_first(), b.drop_first(), c.drop_first());
        }
    }
}

/// Order on (key, value) pairs: by key, then by value. A total ordering.
pub open spec fn pair_leq_at(a: (Seq<char>, Seq<char>), b: (Seq<char>, Seq<char>)) -> bool {
    if a.0 == b.0 {
        lex_leq(a.1, b.1)
    } else {
        lex_leq(a.0, b.0)
    }
}

/// The pair order as a function value, for sorting.
pub open spec fn pair_le() -> spec_fn((Seq<char>, Seq<char>), (Seq<char>, Seq<char>)) -> bool {
    |a: (Seq<char>, Seq<char>), b: (Seq<char>, Seq<char>)| pair_leq_at(a, b)
}

/// The pair order is a total ordering, so sorting by it is canonical.
pub proof fn lemma_pair_le_total_ordering()
    ensures
        total_ordering(pair_le()),
{
    let le = pair_le();
    assert forall|a: (Seq<char>, Seq<char>)| #[trigger] le(a, a) by {
        lemma_lex_refl(a.1);
    }
    assert forall|a: (Seq<char>, Seq<char>), b: (Seq<char>, Seq<char>)|
        #[trigger] le(a, b) && #[trigger] le(b, a) implies a == b by {
        if a.0 == b.0 {
            lemma_lex_antisym(a.1, b.1);
            assert(a =~= (a.0, a.1));
            assert(b =~= (b.0, b.1));
        } else {
            lemma_lex_antisym(a.0, b.0);
        }
    }
    assert forall|a: (Seq<char>, Seq<char>), b: (Seq<char>, Seq<char>), c: (Seq<char>, Seq<char>)|
        #[trigger] le(a, b) && #[trigger] le(b, c) implies le(a, c) by {
        if a.0 == b.0 && b.0 == c.0 {
            lemma_lex_trans(a.1, b.1, c.1);
        } else if a.0 == b.0 {
        } else if b.0 == c.0 {
        } else {
            lemma_lex_trans(a.0, b.0, c.0);
            if a.0 == c.0 {
                lemma_lex_antisym(a.0, b.0);
            }
        }
    }
    assert forall|a: (Seq<char>, Seq<char>), b: (Seq<char>, Seq<char>)|
        #[trigger] le(a, b) || #[trigger] le(b, a) by {
        if a.0 == b.0 {
            lemma_lex_total(a.1, b.1);
        } else {
            lemma_lex_total(a.0, b.0);
        }
    }
}

/// The views of a sequence of (key, raw value) pairs.
pub open spec fn pair_views(pairs: Seq<(String, String)>) -> Seq<(Seq<char>, Seq<char>)> {
    pairs.map_values(|p: (String, String)| (p.0@, p.1@))
}

/// The byte chunks fed to the hasher for a run of pairs: for each pair in
/// order, the UTF-8 bytes of the key, then of the raw value.
pub open spec fn writes_of(pairs: Seq<(Seq<char>, Seq<char>)>) -> Seq<Seq<u8>>
    decreases pairs.len(),
{
    if pairs.len() == 0 {
        Seq::<Seq<u8>>::empty()
    } else {
        seq![
            vstd::utf8::encode_utf8(pairs[0].0),
            vstd::utf8::encode_utf8(pairs[0].1),
        ].add(writes_of(pairs.drop_first()))
    }
}

proof fn lemma_writes_of_push(pairs: Seq<(Seq<char>, Seq<char>)>, p: (Seq<char>, Seq<char>))
    ensures
        writes_of(pairs.push(p)) == writes_of(pairs).add(
            seq![vstd::utf8::encode_utf8(p.0), vstd::utf8::encode_utf8(p.1)],
        ),
    decreases pairs.len(),
{
    if pairs.len() == 0 {
        assert(pairs.push(p)[0] == p);
        assert(pairs.push(p).drop_first() =~= pairs);
        assert(writes_of(pairs.push(p)) =~= writes_of(pairs).add(
            seq![vstd::utf8::encode_utf8(p.0), vstd::utf8::encode_utf8(p.1)],
        ));
    } else {
        assert(pairs.push(p)[0] == pairs[0]);
        assert(pairs.push(p).drop_first() =~= pairs.drop_first().push(p));
        lemma_writes_of_push(pairs.drop_first(), p);
        assert(writes_of(pairs.push(p)) =~= writes_of(pairs).add(
            seq![vstd::utf8::encode_utf8(p.0), vstd::utf8::encode_utf8(p.1)],
        ));
    }
}

/// The eight bytes of `x`, most significant first.
pub open spec fn be_bytes_of(x: u64) -> Seq<u8> {
    Seq::new(8, |i: int| (((x >> (((7 - i) * 8) as u64)) & 0xff) as u8))
}

proof fn lemma_mask_byte(y: u64)
    ensures
        (y & 0xff) <= 0xff,
{
    assert((y & 0xff) <= 0xff) by (bit_vector);
}

/// Splits `x` into its eight bytes, most significant first.
pub fn u64_be_bytes(x: u64) -> (r: Vec<u8>)
    ensures
        r@ == be_bytes_of(x),
{
    let mut r: Vec<u8> = Vec::new();
    proof {
        lemma_mask_byte(x >> 56);
        lemma_mask_byte(x >> 48);
        lemma_mask_byte(x >> 40);
        lemma_mask_byte(x >> 32);
        lemma_mask_byte(x >> 24);
        lemma_mask_byte(x >> 16);
        lemma_mask_byte(x >> 8);
        lemma_mask_byte(x >> 0);
    }
    r.push(((x >> 56) & 0xff) as u8);
    r.push(((x >> 48) & 0xff) as u8);
    r.push(((x >> 40) & 0xff) as u8);
    r.push(((x >> 32) & 0xff) as u8);
    r.push(((x >> 24) & 0xff) as u8);
    r.push(((x >> 16) & 0xff) as u8);
    r.push(((x >> 8) & 0xff) as u8);
    r.push(((x >> 0) & 0xff) as u8);
    proof {
        assert(r@ =~= be_bytes_of(x));
    }
    r
}

fn lex_le_exec(a: &str, b: &str) -> (r: bool)
    ensures
        r == lex_leq(a@, b@),
{
    let al = a.unicode_len();
    let bl = b.unicode_len();
    let mut i: usize = 0;
    proof {
        assert(a@.skip(0) =~= a@);
        assert(b@.skip(0) =~= b@);
    }
    loop
        invariant
            i <= al,
            i <= bl,
            al == a@.len(),
            bl == b@.len(),
            lex_leq(a@, b@) == lex_leq(a@.skip(i as int), b@.skip(i as int)),
        decreases al - i,
    {
        if i == al {
            return true;
        }
        if i == bl {
            return false;
        }
        let ca = a.get_char(i);
        let cb = b.get_char(i);
        if ca < cb {
            return true;
        }
        if ca > cb {
            return false;
        }
        proof {
            assert(a@.skip(i as int)[0] == a@[i as int]);
            assert(b@.skip(i as int)[0] == b@[i as int]);
            assert(a@.skip(i as int).drop_first() =~= a@.skip(i as int + 1));
            assert(b@.skip(i as int).drop_first() =~= b@.skip(i as int + 1));
        }
        i += 1;
    }
}

fn pair_le_exec(a: &(String, String), b: &(String, String)) -> (r: bool)
    ensures
        r == pair_leq_at((a.0@, a.1@), (b.0@, b.1@)),
{
    if crate::text::str_eq(a.0.as_str(), b.0.as_str()) {
        lex_le_exec(a.1.as_str(), b.1.as_str())
    } else {
        lex_le_exec(a.0.as_str(), b.0.as_str())
    }
}

fn sort_pairs(pairs: &Vec<(String, String)>) -> (r: Vec<(String, String)>)
    ensures
        pair_views(r@) == pair_views(pairs@).sort_by(pair_le()),
{
    broadcast use vstd::seq_lib::group_to_multiset_ensures;
    broadcast use vstd::seq_lib::to_multiset_insert;

    let ghost le = pair_le();
    let mut out: Vec<(String, String)> = Vec::new();
    let mut i: usize = 0;
    proof {
        assert(pair_views(pairs@.take(0)) =~= Seq::<(Seq<char>, Seq<char>)>::empty());
        assert(pair_views(out@) =~= Seq::<(Seq<char>, Seq<char>)>::empty());
    }
    while i < pairs.len()
        invariant
            i <= pairs@.len(),
            sorted_by(pair_views(out@), pair_le()),
            pair_views(out@).to_multiset() == pair_views(pairs@.take(i as int)).to_multiset(),
        decreases pairs@.len() - i,
    {
        broadcast use vstd::seq_lib::group_to_multiset_ensures;
        broadcast use vstd::seq_lib::to_multiset_insert;

        let kv = (pairs[i].0.clone(), pairs[i].1.clone());
        let ghost kvv = (kv.0@, kv.1@);
        proof {
            assert(kvv == (pairs@[i as int].0@, pairs@[i as int].1@));
        }
        let mut j: usize = 0;
        while j < out.len() && pair_le_exec(&out[j], &kv)
            invariant
                j <= out@.len(),
                kvv == (kv.0@, kv.1@),
                sorted_by(pair_views(out@), pair_le()),
                forall|x: int| 0 <= x < j ==> pair_leq_at(#[trigger] pair_views(out@)[x], kvv),
            decreases out@.len() - j,
        {
            j += 1;
        }
        proof {
            let le = pair_le();
            let pv = pair_views(out@);
            assert forall|x: int| j <= x < pv.len() implies pair_leq_at(
                kvv,
                #[trigger] pv[x],
            ) by {
                assert(!pair_leq_at(pv[j as int], kvv));
                lemma_lex_total(pv[j as int].0, kvv.0);
                lemma_lex_total(pv[j as int].1, kvv.1);
                assert(pair_leq_at(kvv, pv[j as int]));
                if x > j {
                    assert(le(pv[j as int], pv[x]));
                    lemma_pair_le_trans_at(kvv, pv[j as int], pv[x]);
                }
            }
        }
        let ghost prev = out@;
        out.insert(j, kv);
        proof {
            assert(out@ == prev.insert(j as int, (kv.0, kv.1)));
            lemma_pair_views_insert(prev, j as int, (kv.0, kv.1));
            let pvprev = pair_views(prev);
            let pvnew = pair_views(out@);
            assert(pvnew == pvprev.insert(j as int, kvv));
            lemma_sorted_insert(pvprev, j as int, kvv);
            assert(pvnew.to_multiset() == pvprev.to_multiset().insert(kvv));
            assert(pairs@.take(i as int + 1) =~= pairs@.take(i as int).push(pairs@[i as int]));
            lemma_pair_views_push(pairs@.take(i as int), pairs@[i as int]);
            assert(pair_views(pairs@.take(i as int + 1)) =~= pair_views(
                pairs@.take(i as int),
            ).push(kvv));
        }
        i += 1;
    }
    proof {
        assert(pairs@.take(i as int) =~= pairs@);
        lemma_pair_le_total_ordering();
        pair_views(pairs@).lemma_sort_by_ensures(pair_le());
        lemma_sorted_unique(pair_views(out@), pair_views(pairs@).sort_by(pair_le()), pair_le());
    }
    out
}

proof fn lemma_sorted_insert(pv: Seq<(Seq<char>, Seq<char>)>, j: int, x: (Seq<char>, Seq<char>))
    requires
        sorted_by(pv, pair_le()),
        0 <= j <= pv.len(),
        forall|k: int| 0 <= k < j ==> pair_leq_at(#[trigger] pv[k], x),
        forall|k: int| j <= k < pv.len() ==> pair_leq_at(x, #[trigger] pv[k]),
    ensures
        sorted_by(pv.insert(j, x), pair_le()),
{
    let le = pair_le();
    let pvnew = pv.insert(j, x);
    pv.insert_ensures(j, x);
    assert forall|a: int, b: int| 0 <= a < b < pvnew.len() implies #[trigger] le(
        pvnew[a],
        pvnew[b],
    ) by {
        if a < j && b < j {
            assert(pvnew[a] == pv[a] && pvnew[b] == pv[b]);
            assert(le(pv[a], pv[b]));
        } else if a < j && b == j {
            assert(pvnew[a] == pv[a] && pvnew[b] == x);
        } else if a < j && b > j {
            assert(pvnew[a] == pv[a] && pvnew[b] == pv[b - 1]);
            assert(le(pv[a], pv[b - 1]));
        } else if a == j {
            assert(pvnew[a] == x && pvnew[b] == pv[b - 1]);
        } else {
            assert(pvnew[a] == pv[a - 1] && pvnew[b] == pv[b - 1]);
            assert(le(pv[a - 1], pv[b - 1]));
        }
    }
}

proof fn lemma_pair_le_trans_at(
    a: (Seq<char>, Seq<char>),
    b: (Seq<char>, Seq<char>),
    c: (Seq<char>, Seq<char>),
)
    requires
        pair_leq_at(a, b),
        pair_leq_at(b, c),
    ensures
        pair_leq_at(a, c),
{
    if a.0 == b.0 && b.0 == c.0 {
        lemma_lex_trans(a.1, b.1, c.1);
    } else if a.0 == b.0 {
    } else if b.0 == c.0 {
    } else {
        lemma_lex_trans(a.0, b.0, c.0);
        if a.0 == c.0 {
            lemma_lex_antisym(a.0, b.0);
        }
    }
}

proof fn lemma_pair_views_push(pairs: Seq<(String, String)>, p: (String, String))
    ensures
        pair_views(pairs.push(p)) == pair_views(pairs).push((p.0@, p.1@)),
{
    assert(pair_views(pairs.push(p)) =~= pair_views(pairs).push((p.0@, p.1@)));
}

proof fn lemma_pair_views_insert(pairs: Seq<(String, String)>, j: int, p: (String, String))
    requires
        0 <= j <= pairs.len(),
    ensures
        pair_views(pairs.insert(j, p)) == pair_views(pairs).insert(j, (p.0@, p.1@)),
{
    pairs.insert_ensures(j, p);
    pair_views(pairs).insert_ensures(j, (p.0@, p.1@));
    assert(pair_views(pairs.insert(j, p)) =~= pair_views(pairs).insert(j, (p.0@, p.1@)));
}

/// The hex text that `hash_args` produces for a map with the given pair
/// views: keys sorted, each key's and value's UTF-8 bytes hashed in order,
/// the 64-bit result rendered as 16 lowercase hex digits, big-endian.
pub open spec fn spec_hash_args(m: Seq<(Seq<char>, Seq<char>)>) -> Seq<char> {
    crate::outside::hex_of(
        be_bytes_of(DefaultHasher::spec_finish(writes_of(m.sort_by(pair_le())))),
    )
}

/// Hashes a job's argument map for cache keying. Absent arguments hash to
/// the fixed text `empty_args`; otherwise the pairs are sorted by key and
/// fed to the hasher, and the result depends only on the map's contents.
pub fn hash_args(args: &Option<Vec<(String, String)>>) -> (r: String)
    ensures
        (match args {
            Some(pairs) => r@ == spec_hash_args(pair_views(pairs@)),
            None => r@ == "empty_args"@,
        }),
{
    match args {
        Some(pairs) => {
            let sorted = sort_pairs(pairs);
            let ghost target = pair_views(pairs@).sort_by(pair_le());
            let mut h = DefaultHasher::new();
            let mut i: usize = 0;
            proof {
                assert(pair_views(sorted@).take(0) =~= Seq::<(Seq<char>, Seq<char>)>::empty());
            }
            while i < sorted.len()
                invariant
                    i <= sorted@.len(),
                    target == pair_views(sorted@),
                    h@ == writes_of(pair_views(sorted@).take(i as int)),
                decreases sorted@.len() - i,
            {
                let kb = sorted[i].0.as_str().as_bytes_vec();
                let vb = sorted[i].1.as_str().as_bytes_vec();
                h.write(kb.as_slice());
                h.write(vb.as_slice());
                proof {
                    let pv = pair_views(sorted@);
                    assert(pv.take(i as int + 1) =~= pv.take(i as int).push(pv[i as int]));
                    lemma_writes_of_push(pv.take(i as int), pv[i as int]);
                    assert(h@ =~= writes_of(pv.take(i as int + 1)));
                }
                i += 1;
            }
            proof {
                assert(pair_views(sorted@).take(i as int) =~= pair_views(sorted@));
            }
            let hv = h.finish();
            let bytes = u64_be_bytes(hv);
            crate::outside::hex_encode(&bytes)
        },
        None => {
            let r = String::from_str("empty_args");
            r
        },
    }
}

/// Hashing ignores key insertion order: two argument maps holding the same
/// (key, raw value) pairs, however ordered, hash to the same text — the
/// keys are sorted before hashing, and the bytes hashed are each key
/// followed by its raw value bytes.
pub proof fn lemma_hash_args_insertion_order(
    m1: Seq<(Seq<char>, Seq<char>)>,
    m2: Seq<(Seq<char>, Seq<char>)>,
)
    requires
        m1.to_multiset() == m2.to_multiset(),
    ensures
        spec_hash_args(m1) == spec_hash_args(m2),
{
    lemma_pair_le_total_ordering();
    m1.lemma_sort_by_ensures(pair_le());
    m2.lemma_sort_by_ensures(pair_le());
    lemma_sorted_unique(m1.sort_by(pair_le()), m2.sort_by(pair_le()), pair_le());
    assert(m1.sort_by(pair_le()) == m2.sort_by(pair_le()));
}

} // verus!
