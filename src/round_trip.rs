//! Decoding inverts encoding.
use vstd::prelude::*;

use crate::feature::{
    decode_members, encodes, encodes_fields, fields_len, foreign_or_empty, is_known_key,
    lemma_known_keys_distinct, FeatureView,
};
use crate::json::{
    first_index, has_key, inserted, inserted_all, is_first, keys_distinct, lemma_first_index,
    lemma_has_first, lookup, without, JsonValue, Members,
};

verus! {

/// A member that comes first in `t` keeps its place and value in `t + m`, and taking it
/// out of `t + m` takes it out of `t`.
proof fn lemma_first_in_prefix(t: Members, m: Members, k: Seq<char>, i: int)
    requires
        is_first(t, k, i),
    ensures
        lookup(t + m, k) == Some(t[i].1),
        without(t + m, k) == t.remove(i) + m,
{
    assert(is_first(t + m, k, i));
    lemma_first_index(t + m, k, i);
    assert((t + m).remove(i) =~= t.remove(i) + m);
}

/// A key that neither `t` nor `m` holds is not found in `t + m`.
proof fn lemma_absent(t: Members, m: Members, k: Seq<char>)
    requires
        forall|j: int| 0 <= j < t.len() ==> t[j].0 != k,
        forall|j: int| 0 <= j < m.len() ==> m[j].0 != k,
    ensures
        lookup(t + m, k) is None,
        without(t + m, k) == t + m,
{
    assert(!has_key(t + m, k)) by {
        if has_key(t + m, k) {
            let j = choose|j: int| 0 <= j < (t + m).len() && (t + m)[j].0 == k;
            if j < t.len() {
                assert(t[j].0 == k);
            } else {
                assert(m[j - t.len()].0 == k);
            }
        }
    }
}

/// Inserting members whose keys are new and distinct appends them.
proof fn lemma_inserted_all_appends(h: Members, m: Members)
    requires
        keys_distinct(m),
        forall|i: int, j: int| 0 <= i < h.len() && 0 <= j < m.len() ==> h[i].0 != m[j].0,
    ensures
        inserted_all(h, m) == h + m,
    decreases m.len(),
{
    if m.len() == 0 {
        assert(h + m =~= h);
    } else {
        let p = m.drop_last();
        lemma_inserted_all_appends(h, p);
        let k = m.last().0;
        assert(!has_key(h + p, k)) by {
            if has_key(h + p, k) {
                let j = choose|j: int| 0 <= j < (h + p).len() && (h + p)[j].0 == k;
                if j < h.len() {
                    assert(h[j].0 == m[m.len() - 1].0);
                } else {
                    assert(m[j - h.len()].0 == m[m.len() - 1].0);
                }
            }
        }
        assert(inserted(h + p, k, m.last().1) =~= h + m);
    }
}

/// Decoding the named fields of `f` followed by members with other keys gives back `f`,
/// with those members as the foreign members.
proof fn lemma_decode_fields(f: FeatureView, h: Members, m: Members)
    requires
        encodes_fields(f, h),
        f.properties is Some,
        forall|j: int| 0 <= j < m.len() ==> !is_known_key(#[trigger] m[j].0),
        f.foreign_members == (if m.len() == 0 {
            None::<Members>
        } else {
            Some(m)
        }),
    ensures
        decode_members(h + m) == Ok::<FeatureView, crate::error::Error>(f),
{
    lemma_known_keys_distinct();
    let n = fields_len(f);
    let e = h + m;
    lemma_first_in_prefix(h, m, "type"@, 0);
    assert(is_first(h, "geometry"@, 1));
    lemma_first_in_prefix(h, m, "geometry"@, 1);
    assert(is_first(h, "properties"@, 2));
    lemma_first_in_prefix(h, m, "properties"@, 2);
    let t1 = h.remove(0);
    assert(is_first(t1, "geometry"@, 0));
    lemma_first_in_prefix(t1, m, "geometry"@, 0);
    let t2 = t1.remove(0);
    assert(is_first(t2, "properties"@, 0));
    lemma_first_in_prefix(t2, m, "properties"@, 0);
    let t3 = t2.remove(0);
    assert(t3 =~= h.subrange(3, n));
    if f.id is Some {
        assert(is_first(h, "id"@, n - 1));
        lemma_first_in_prefix(h, m, "id"@, n - 1);
        assert(is_first(t3, "id"@, n - 4));
        lemma_first_in_prefix(t3, m, "id"@, n - 4);
    } else {
        lemma_absent(h, m, "id"@);
        lemma_absent(t3, m, "id"@);
    }
    let t4 = if f.id is Some {
        t3.remove(n - 4)
    } else {
        t3
    };
    assert(without(t3 + m, "id"@) == t4 + m);
    if f.bbox is Some {
        assert(is_first(h, "bbox"@, 3));
        lemma_first_in_prefix(h, m, "bbox"@, 3);
        assert(is_first(t4, "bbox"@, 0));
        lemma_first_in_prefix(t4, m, "bbox"@, 0);
        let a = h[3].1->Array_0@;
        assert(a.map_values(|x: crate::json::JsonValue| x->Number_0) =~= f.bbox->0);
        assert(t4.remove(0) + m =~= m);
    } else {
        lemma_absent(h, m, "bbox"@);
        lemma_absent(t4, m, "bbox"@);
        assert(t4 + m =~= m);
    }
}

/// Decoding the JSON form of a Feature gives the Feature back, where its properties are an
/// object and it has no foreign members.
pub proof fn lemma_round_trip(f: FeatureView, e: Members)
    requires
        f.properties is Some,
        f.foreign_members is None,
        encodes(f, e),
    ensures
        decode_members(e) == Ok::<FeatureView, crate::error::Error>(f),
{
    let h = choose|h: Members| encodes_fields(f, h) && e == inserted_all(h, foreign_or_empty(f));
    assert(h + Seq::<(Seq<char>, crate::json::JsonValue)>::empty() =~= h);
    lemma_decode_fields(f, h, Seq::empty());
}

/// Decoding the JSON form of a Feature with foreign members gives the Feature back, each
/// foreign member with its key, value and place, where the properties are an object and
/// the foreign members have distinct keys that GeoJSON does not define.
pub proof fn lemma_round_trip_foreign_members(f: FeatureView, e: Members)
    requires
        f.properties is Some,
        f.foreign_members is Some,
        f.foreign_members->0.len() > 0,
        keys_distinct(f.foreign_members->0),
        forall|j: int|
            0 <= j < f.foreign_members->0.len() ==> !is_known_key(
                #[trigger] f.foreign_members->0[j].0,
            ),
        encodes(f, e),
    ensures
        decode_members(e) == Ok::<FeatureView, crate::error::Error>(f),
{
    let m = f.foreign_members->0;
    let h = choose|h: Members| encodes_fields(f, h) && e == inserted_all(h, foreign_or_empty(f));
    lemma_known_keys_distinct();
    assert forall|i: int, j: int| 0 <= i < h.len() && 0 <= j < m.len() implies h[i].0 != m[j].0 by {
        assert(!is_known_key(m[j].0));
        let n = fields_len(f);
        if i == n - 1 && f.id is Some {
        } else if i == 3 && f.bbox is Some {
        }
    }
    lemma_inserted_all_appends(h, m);
    lemma_decode_fields(f, h, m);
}

/// Two values hold the same JSON: equal, or strings, arrays or objects with the same contents.
pub open spec fn same_json(a: JsonValue, b: JsonValue) -> bool {
    match (a, b) {
        (JsonValue::String(x), JsonValue::String(y)) => x@ == y@,
        (JsonValue::Array(x), JsonValue::Array(y)) => x@ == y@,
        (JsonValue::Object(x), JsonValue::Object(y)) => x@ == y@,
        _ => a == b,
    }
}

/// Two member sequences with the same keys in the same order and the same JSON at each.
pub open spec fn same_members(a: Members, b: Members) -> bool {
    &&& a.len() == b.len()
    &&& forall|i: int| 0 <= i < a.len() ==> a[i].0 == b[i].0 && same_json(a[i].1, b[i].1)
}

proof fn lemma_inserted_same(a: Members, b: Members, k: Seq<char>, v: JsonValue)
    requires
        same_members(a, b),
    ensures
        same_members(inserted(a, k, v), inserted(b, k, v)),
{
    if has_key(a, k) {
        lemma_has_first(a, k);
        let i = first_index(a, k);
        assert(is_first(b, k, i));
        lemma_first_index(b, k, i);
    } else {
        assert(!has_key(b, k)) by {
            if has_key(b, k) {
                let j = choose|j: int| 0 <= j < b.len() && b[j].0 == k;
                assert(a[j].0 == k);
            }
        }
    }
}

proof fn lemma_inserted_all_same(a: Members, b: Members, m: Members)
    requires
        same_members(a, b),
    ensures
        same_members(inserted_all(a, m), inserted_all(b, m)),
    decreases m.len(),
{
    if m.len() > 0 {
        lemma_inserted_all_same(a, b, m.drop_last());
        lemma_inserted_same(
            inserted_all(a, m.drop_last()),
            inserted_all(b, m.drop_last()),
            m.last().0,
            m.last().1,
        );
    }
}

/// Encoding one Feature twice gives the same keys in the same order, with the same JSON
/// under each.
pub proof fn lemma_encode_deterministic(f: FeatureView, e1: Members, e2: Members)
    requires
        encodes(f, e1),
        encodes(f, e2),
    ensures
        same_members(e1, e2),
{
    let h1 = choose|h: Members| encodes_fields(f, h) && e1 == inserted_all(h, foreign_or_empty(f));
    let h2 = choose|h: Members| encodes_fields(f, h) && e2 == inserted_all(h, foreign_or_empty(f));
    let n = fields_len(f);
    if f.bbox is Some {
        assert(h1[3].1->Array_0@ =~= h2[3].1->Array_0@);
    }
    assert(same_members(h1, h2)) by {
        assert forall|i: int| 0 <= i < n implies h1[i].0 == h2[i].0 && same_json(h1[i].1, h2[i].1) by {
            if i == n - 1 && f.id is Some {
            } else if i == 3 && f.bbox is Some {
            }
        }
    }
    lemma_inserted_all_same(h1, h2, foreign_or_empty(f));
}

} // verus!
