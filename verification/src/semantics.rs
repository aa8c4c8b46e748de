//! What the modeled schema fragment means.
//!
//! `sem_valid` gives the Draft 7 meaning of the keywords the strictifier
//! works with — `type`, `properties`, `required`, `additionalProperties`,
//! `items`, `oneOf` — and of no others; unmodeled keywords impose no
//! constraint here.  Number values are not told apart, so `number` and
//! `integer` both mean "a number".  Over this meaning the closed-world
//! laws of the strictifier are stated and proved.

use vstd::prelude::*;
use crate::json::{JsonModel, Entry, obj_lookup, obj_set};
use crate::strictify::{
    k_type, k_object, k_array, k_properties, k_required, k_additional, k_items, k_one_of,
    required_of, strict_m, strict_entries, strict_vals, strict_list, lemma_keys_distinct,
    lemma_lookup_decreases, lemma_lookup_set, lemma_strict_vals, lemma_strict_list,
    lemma_lookup_first,
};

verus! {

/// Whether an object's entries carry the key `k`.
pub open spec fn has_key(ps: Seq<Entry>, k: Seq<char>) -> bool {
    obj_lookup(ps, k) is Some
}

/// The declared properties of a schema node's entries: the entries of its
/// `properties` object, or nothing.
pub open spec fn props_of(ps: Seq<Entry>) -> Seq<Entry> {
    match obj_lookup(ps, k_properties()) {
        Some(JsonModel::Obj(props)) => props,
        _ => Seq::empty(),
    }
}

/// No two entries share a key.
pub open spec fn uniq_keys(ps: Seq<Entry>) -> bool {
    forall|i: int, j: int| 0 <= i < j < ps.len() ==> ps[i].0 != ps[j].0
}

/// The meaning of a `type` word on a document.
pub open spec fn type_matches(t: Seq<char>, d: JsonModel) -> bool {
    if t == k_object() {
        d is Obj
    } else if t == k_array() {
        d is Arr
    } else if t == "string"@ {
        d is Str
    } else if t == "boolean"@ {
        d is Bool
    } else if t == "null"@ {
        d is Null
    } else if t == "number"@ || t == "integer"@ {
        d is Num
    } else {
        true
    }
}

/// The meaning of a schema node of the modeled fragment on a document:
/// the conjunction of the constraints of the modeled keywords it carries.
pub open spec fn sem_valid(s: JsonModel, d: JsonModel) -> bool
    decreases s,
{
    match s {
        JsonModel::Obj(ps) => {
            let type_ok = match obj_lookup(ps, k_type()) {
                Some(JsonModel::Str(t)) => type_matches(t, d),
                _ => true,
            };
            let props_ok = match obj_lookup(ps, k_properties()) {
                Some(JsonModel::Obj(props)) => match d {
                    JsonModel::Obj(dps) => {
                        proof {
                            lemma_lookup_decreases(ps, k_properties());
                            assert(decreases_to!(JsonModel::Obj(props) => props));
                        }
                        forall|i: int|
                            #![trigger props[i]]
                            0 <= i < props.len() ==> match obj_lookup(dps, props[i].0) {
                                Some(dv) => sem_valid(props[i].1, dv),
                                None => true,
                            }
                    },
                    _ => true,
                },
                _ => true,
            };
            let req_ok = match obj_lookup(ps, k_required()) {
                Some(JsonModel::Arr(ks)) => match d {
                    JsonModel::Obj(dps) => forall|i: int|
                        #![trigger ks[i]]
                        0 <= i < ks.len() ==> match ks[i] {
                            JsonModel::Str(kk) => has_key(dps, kk),
                            _ => true,
                        },
                    _ => true,
                },
                _ => true,
            };
            let addl_ok = match obj_lookup(ps, k_additional()) {
                Some(JsonModel::Bool(b)) => match d {
                    JsonModel::Obj(dps) => b || forall|i: int|
                        0 <= i < dps.len() ==> has_key(props_of(ps), dps[i].0),
                    _ => true,
                },
                _ => true,
            };
            let items_ok = match obj_lookup(ps, k_items()) {
                Some(isch) => match d {
                    JsonModel::Arr(xs) => {
                        proof {
                            lemma_lookup_decreases(ps, k_items());
                        }
                        forall|i: int| 0 <= i < xs.len() ==> sem_valid(isch, xs[i])
                    },
                    _ => true,
                },
                _ => true,
            };
            let oneof_ok = match obj_lookup(ps, k_one_of()) {
                Some(JsonModel::Arr(bs)) => {
                    proof {
                        lemma_lookup_decreases(ps, k_one_of());
                        assert(decreases_to!(JsonModel::Arr(bs) => bs));
                    }
                    exists|i: int|
                        0 <= i < bs.len() && #[trigger] sem_valid(bs[i], d) && forall|j: int|
                            0 <= j < bs.len() && j != i ==> !sem_valid(bs[j], d)
                },
                _ => true,
            };
            type_ok && props_ok && req_ok && addl_ok && items_ok && oneof_ok
        },
        _ => true,
    }
}

/// A key is found exactly when some entry carries it.
pub proof fn lemma_lookup_exists(ps: Seq<Entry>, k: Seq<char>)
    ensures
        has_key(ps, k) <==> exists|i: int| 0 <= i < ps.len() && ps[i].0 == k,
    decreases ps.len(),
{
    if ps.len() > 0 {
        lemma_lookup_exists(ps.subrange(1, ps.len() as int), k);
        if ps[0].0 == k {
        } else if exists|i: int| 0 <= i < ps.len() && ps[i].0 == k {
            let i = choose|i: int| 0 <= i < ps.len() && ps[i].0 == k;
            assert(ps.subrange(1, ps.len() as int)[i - 1].0 == k);
        }
    }
}

/// Under unique keys, every entry is what lookup answers for its own key.
pub proof fn lemma_lookup_uniq(ps: Seq<Entry>, i: int)
    requires
        uniq_keys(ps),
        0 <= i < ps.len(),
    ensures
        obj_lookup(ps, ps[i].0) == Some(ps[i].1),
{
    lemma_lookup_first(ps, ps[i].0, i);
}

/// Two entry lists with the same keys in the same places answer `has_key`
/// alike.
pub proof fn lemma_same_keys(a: Seq<Entry>, b: Seq<Entry>)
    requires
        a.len() == b.len(),
        forall|i: int| 0 <= i < a.len() ==> a[i].0 == b[i].0,
    ensures
        forall|k: Seq<char>| #[trigger] has_key(a, k) <==> has_key(b, k),
{
    assert forall|k: Seq<char>| #[trigger] has_key(a, k) <==> has_key(b, k) by {
        lemma_lookup_exists(a, k);
        lemma_lookup_exists(b, k);
        if exists|i: int| 0 <= i < a.len() && a[i].0 == k {
            let i = choose|i: int| 0 <= i < a.len() && a[i].0 == k;
            assert(b[i].0 == k);
        }
        if exists|i: int| 0 <= i < b.len() && b[i].0 == k {
            let i = choose|i: int| 0 <= i < b.len() && b[i].0 == k;
            assert(a[i].0 == k);
        }
    }
}

/// What one pass leaves under each modeled key of an object-typed node.
pub proof fn lemma_strict_object_lookups(ps: Seq<Entry>)
    requires
        obj_lookup(ps, k_type()) == Some(JsonModel::Str(k_object())),
    ensures
        obj_lookup(strict_entries(ps), k_type()) == Some(JsonModel::Str(k_object())),
        obj_lookup(strict_entries(ps), k_additional()) == Some(JsonModel::Bool(false)),
        obj_lookup(strict_entries(ps), k_required()) == Some(required_of(ps)),
        obj_lookup(strict_entries(ps), k_properties()) == (match obj_lookup(ps, k_properties()) {
            Some(JsonModel::Obj(props)) => Some(JsonModel::Obj(strict_vals(props))),
            r => r,
        }),
        obj_lookup(strict_entries(ps), k_one_of()) == (match obj_lookup(ps, k_one_of()) {
            Some(JsonModel::Arr(bs)) => Some(JsonModel::Arr(strict_list(bs))),
            r => r,
        }),
        obj_lookup(strict_entries(ps), k_items()) == obj_lookup(ps, k_items()),
{
    lemma_keys_distinct();
    let s1 = obj_set(ps, k_additional(), JsonModel::Bool(false));
    let s2 = obj_set(s1, k_required(), required_of(ps));
    lemma_lookup_set(ps, k_additional(), JsonModel::Bool(false));
    lemma_lookup_set(s1, k_required(), required_of(ps));
    let typed: Seq<Entry> = match obj_lookup(ps, k_properties()) {
        Some(JsonModel::Obj(props)) => {
            lemma_lookup_set(s2, k_properties(), JsonModel::Obj(strict_vals(props)));
            obj_set(s2, k_properties(), JsonModel::Obj(strict_vals(props)))
        },
        _ => s2,
    };
    match obj_lookup(ps, k_one_of()) {
        Some(JsonModel::Arr(bs)) => {
            lemma_lookup_set(typed, k_one_of(), JsonModel::Arr(strict_list(bs)));
        },
        _ => {},
    }
}

/// What one pass leaves under each modeled key of an array-typed node.
pub proof fn lemma_strict_array_lookups(ps: Seq<Entry>)
    requires
        obj_lookup(ps, k_type()) == Some(JsonModel::Str(k_array())),
    ensures
        obj_lookup(strict_entries(ps), k_type()) == Some(JsonModel::Str(k_array())),
        obj_lookup(strict_entries(ps), k_items()) == (match obj_lookup(ps, k_items()) {
            Some(it) => Some(strict_m(it)),
            None => None,
        }),
        obj_lookup(strict_entries(ps), k_one_of()) == (match obj_lookup(ps, k_one_of()) {
            Some(JsonModel::Arr(bs)) => Some(JsonModel::Arr(strict_list(bs))),
            r => r,
        }),
{
    lemma_keys_distinct();
    let typed: Seq<Entry> = match obj_lookup(ps, k_items()) {
        Some(it) => {
            lemma_lookup_set(ps, k_items(), strict_m(it));
            obj_set(ps, k_items(), strict_m(it))
        },
        None => ps,
    };
    match obj_lookup(ps, k_one_of()) {
        Some(JsonModel::Arr(bs)) => {
            lemma_lookup_set(typed, k_one_of(), JsonModel::Arr(strict_list(bs)));
        },
        _ => {},
    }
}

/// Closed-world object law: a strictified object schema with declared
/// properties `P` holds of a document object exactly when the document's
/// key set equals the key set of `P` and each document value satisfies
/// its own strictified property schema.  (Keys are unique on both sides,
/// as in any JSON object.)
pub proof fn lemma_closed_world_object(ps: Seq<Entry>, dps: Seq<Entry>)
    requires
        obj_lookup(ps, k_type()) == Some(JsonModel::Str(k_object())),
        obj_lookup(ps, k_one_of()) is None,
        uniq_keys(props_of(ps)),
        uniq_keys(dps),
    ensures
        sem_valid(strict_m(JsonModel::Obj(ps)), JsonModel::Obj(dps)) <==> {
            &&& (forall|k: Seq<char>| #[trigger] has_key(dps, k) <==> has_key(props_of(ps), k))
            &&& (forall|i: int|
                #![trigger dps[i]]
                0 <= i < dps.len() ==> match obj_lookup(props_of(ps), dps[i].0) {
                    Some(psch) => sem_valid(strict_m(psch), dps[i].1),
                    None => true,
                })
        },
{
    lemma_keys_distinct();
    lemma_strict_object_lookups(ps);
    let ps2 = strict_entries(ps);
    let props = props_of(ps);
    let pv = strict_vals(props);
    lemma_strict_vals(props);
    // The strict node's declared properties are `props` under new values.
    assert(props_of(ps2) == strict_vals(props_of(ps))) by {
        reveal_with_fuel(strict_vals, 2);
        match obj_lookup(ps, k_properties()) {
            Some(JsonModel::Obj(p)) => {},
            _ => {
                assert(strict_vals(Seq::empty()) =~= Seq::<Entry>::empty());
            },
        }
    }
    lemma_same_keys(pv, props);
    let d = JsonModel::Obj(dps);
    let strict = strict_m(JsonModel::Obj(ps));
    assert(strict == JsonModel::Obj(ps2));

    // The three live conjuncts of the strict node's meaning.
    let p_ok = forall|i: int|
        #![trigger pv[i]]
        0 <= i < pv.len() ==> match obj_lookup(dps, pv[i].0) {
            Some(dv) => sem_valid(pv[i].1, dv),
            None => true,
        };
    let r_ok = forall|i: int|
        #![trigger props[i]]
        0 <= i < props.len() ==> has_key(dps, props[i].0);
    let a_ok = forall|i: int| #![trigger dps[i]] 0 <= i < dps.len() ==> has_key(props, dps[i].0);

    assert(sem_valid(strict, d) <==> (p_ok && r_ok && a_ok)) by {
        let ks = Seq::new(props.len(), |i: int| JsonModel::Str(props[i].0));
        assert(required_of(ps) == JsonModel::Arr(ks)) by {
            match obj_lookup(ps, k_properties()) {
                Some(JsonModel::Obj(p)) => {},
                _ => {
                    assert(ks =~= Seq::<JsonModel>::empty());
                },
            }
        }
        if sem_valid(strict, d) {
            assert forall|i: int| #![trigger props[i]] 0 <= i < props.len() implies has_key(
                dps,
                props[i].0,
            ) by {
                assert(ks[i] == JsonModel::Str(props[i].0));
            }
            assert forall|i: int| #![trigger dps[i]] 0 <= i < dps.len() implies has_key(
                props,
                dps[i].0,
            ) by {
                assert(has_key(props_of(ps2), dps[i].0));
            }
        }
        if p_ok && r_ok && a_ok {
            assert forall|i: int|
                #![trigger ks[i]]
                0 <= i < ks.len() implies match ks[i] {
                JsonModel::Str(kk) => has_key(dps, kk),
                _ => true,
            } by {
                assert(ks[i] == JsonModel::Str(props[i].0));
            }
            assert forall|i: int| #![trigger dps[i]] 0 <= i < dps.len() implies has_key(
                props_of(ps2),
                dps[i].0,
            ) by {
                assert(has_key(props, dps[i].0));
            }
        }
    }

    let keys_eq = forall|k: Seq<char>| #[trigger] has_key(dps, k) <==> has_key(props, k);
    let vals_ok = forall|i: int|
        #![trigger dps[i]]
        0 <= i < dps.len() ==> match obj_lookup(props, dps[i].0) {
            Some(psch) => sem_valid(strict_m(psch), dps[i].1),
            None => true,
        };

    if p_ok && r_ok && a_ok {
        assert forall|k: Seq<char>| #[trigger] has_key(dps, k) <==> has_key(props, k) by {
            lemma_lookup_exists(dps, k);
            lemma_lookup_exists(props, k);
            if exists|i: int| 0 <= i < dps.len() && dps[i].0 == k {
                let i = choose|i: int| 0 <= i < dps.len() && dps[i].0 == k;
                assert(has_key(props, dps[i].0));
            }
            if exists|i: int| 0 <= i < props.len() && props[i].0 == k {
                let i = choose|i: int| 0 <= i < props.len() && props[i].0 == k;
                assert(has_key(dps, props[i].0));
            }
        }
        assert forall|i: int|
            #![trigger dps[i]]
            0 <= i < dps.len() implies match obj_lookup(props, dps[i].0) {
            Some(psch) => sem_valid(strict_m(psch), dps[i].1),
            None => true,
        } by {
            match obj_lookup(props, dps[i].0) {
                Some(psch) => {
                    lemma_lookup_exists(props, dps[i].0);
                    let j = choose|j: int| 0 <= j < props.len() && props[j].0 == dps[i].0;
                    lemma_lookup_uniq(props, j);
                    assert(psch == props[j].1);
                    assert(pv[j] == (props[j].0, strict_m(props[j].1)));
                    lemma_lookup_uniq(dps, i);
                    assert(obj_lookup(dps, pv[j].0) == Some(dps[i].1));
                },
                None => {},
            }
        }
    }
    if keys_eq && vals_ok {
        assert forall|i: int| #![trigger props[i]] 0 <= i < props.len() implies has_key(
            dps,
            props[i].0,
        ) by {
            lemma_lookup_uniq(props, i);
            assert(has_key(props, props[i].0));
            assert(has_key(dps, props[i].0) <==> has_key(props, props[i].0));
        }
        assert forall|i: int| #![trigger dps[i]] 0 <= i < dps.len() implies has_key(
            props,
            dps[i].0,
        ) by {
            lemma_lookup_uniq(dps, i);
            assert(has_key(dps, dps[i].0));
            assert(has_key(dps, dps[i].0) <==> has_key(props, dps[i].0));
        }
        assert forall|j: int|
            #![trigger pv[j]]
            0 <= j < pv.len() implies match obj_lookup(dps, pv[j].0) {
            Some(dv) => sem_valid(pv[j].1, dv),
            None => true,
        } by {
            match obj_lookup(dps, pv[j].0) {
                Some(dv) => {
                    lemma_lookup_exists(dps, props[j].0);
                    let i = choose|i: int| 0 <= i < dps.len() && dps[i].0 == props[j].0;
                    lemma_lookup_uniq(dps, i);
                    assert(dv == dps[i].1);
                    lemma_lookup_uniq(props, j);
                    assert(obj_lookup(props, dps[i].0) == Some(props[j].1));
                },
                None => {},
            }
        }
    }
}

/// Array law: a strictified array schema with item schema `I` holds of a
/// sequence exactly when every element satisfies strictified `I`.
pub proof fn lemma_array_items(ps: Seq<Entry>, item: JsonModel, xs: Seq<JsonModel>)
    requires
        obj_lookup(ps, k_type()) == Some(JsonModel::Str(k_array())),
        obj_lookup(ps, k_one_of()) is None,
        obj_lookup(ps, k_items()) == Some(item),
    ensures
        sem_valid(strict_m(JsonModel::Obj(ps)), JsonModel::Arr(xs)) <==> forall|i: int|
            0 <= i < xs.len() ==> sem_valid(strict_m(item), xs[i]),
{
    lemma_keys_distinct();
    lemma_strict_array_lookups(ps);
    let ps2 = strict_entries(ps);
    let strict = strict_m(JsonModel::Obj(ps));
    assert(strict == JsonModel::Obj(ps2));
    let d = JsonModel::Arr(xs);
    assert(obj_lookup(ps2, k_items()) == Some(strict_m(item)));
    if sem_valid(strict, d) {
        assert forall|i: int| 0 <= i < xs.len() implies sem_valid(strict_m(item), xs[i]) by {
            assert(strict->Obj_0 == ps2);
            assert(obj_lookup(ps2, k_items()).unwrap() == strict_m(item));
            assert(d->Arr_0 == xs);
        }
    }
    if forall|i: int| 0 <= i < xs.len() ==> sem_valid(strict_m(item), xs[i]) {
        assert(sem_valid(strict, d));
    }
}

/// The shape the transform stamps on an object-typed node: unknown keys
/// rejected, and exactly the declared property keys required.
pub open spec fn closed_shape(ps: Seq<Entry>) -> bool {
    obj_lookup(ps, k_additional()) == Some(JsonModel::Bool(false)) && obj_lookup(
        ps,
        k_required(),
    ) == Some(required_of(ps))
}

/// Every object-typed node reached through the modeled keywords —
/// `properties` values, the `items` schema, `oneOf` branches — carries
/// the closed-world shape.  Nodes reached only through unmodeled keywords
/// are not visited.
pub open spec fn deeply_closed(m: JsonModel) -> bool
    decreases m,
{
    match m {
        JsonModel::Obj(ps) => {
            let here_ok = if obj_lookup(ps, k_type()) == Some(JsonModel::Str(k_object())) {
                closed_shape(ps) && match obj_lookup(ps, k_properties()) {
                    Some(JsonModel::Obj(props)) => {
                        proof {
                            lemma_lookup_decreases(ps, k_properties());
                            assert(decreases_to!(JsonModel::Obj(props) => props));
                        }
                        forall|i: int|
                            #![trigger props[i]]
                            0 <= i < props.len() ==> deeply_closed(props[i].1)
                    },
                    _ => true,
                }
            } else if obj_lookup(ps, k_type()) == Some(JsonModel::Str(k_array())) {
                match obj_lookup(ps, k_items()) {
                    Some(it) => {
                        proof {
                            lemma_lookup_decreases(ps, k_items());
                        }
                        deeply_closed(it)
                    },
                    None => true,
                }
            } else {
                true
            };
            let one_ok = match obj_lookup(ps, k_one_of()) {
                Some(JsonModel::Arr(bs)) => {
                    proof {
                        lemma_lookup_decreases(ps, k_one_of());
                        assert(decreases_to!(JsonModel::Arr(bs) => bs));
                    }
                    forall|i: int| #![trigger bs[i]] 0 <= i < bs.len() ==> deeply_closed(bs[i])
                },
                _ => true,
            };
            here_ok && one_ok
        },
        _ => true,
    }
}

/// Closed-world propagation: strictifying a top-level schema leaves every
/// object-typed descendant reached through `properties`, `items` and
/// `oneOf` closed, at every nesting depth.
pub proof fn lemma_strictify_deeply_closed(m: JsonModel)
    ensures
        deeply_closed(strict_m(m)),
    decreases m,
{
    lemma_keys_distinct();
    match m {
        JsonModel::Obj(ps) => {
            let ps2 = strict_entries(ps);
            let t = obj_lookup(ps, k_type());
            if t == Some(JsonModel::Str(k_object())) {
                lemma_strict_object_lookups(ps);
                match obj_lookup(ps, k_properties()) {
                    Some(JsonModel::Obj(props)) => {
                        let pv = strict_vals(props);
                        lemma_strict_vals(props);
                        assert(Seq::new(pv.len(), |i: int| JsonModel::Str(pv[i].0)) =~= Seq::new(
                            props.len(),
                            |i: int| JsonModel::Str(props[i].0),
                        ));
                        assert(required_of(ps2) == required_of(ps));
                        assert forall|i: int|
                            #![trigger pv[i]]
                            0 <= i < pv.len() implies deeply_closed(pv[i].1) by {
                            lemma_lookup_decreases(ps, k_properties());
                            assert(decreases_to!(JsonModel::Obj(props) => props));
                            assert(decreases_to!(props => props[i]));
                            lemma_strictify_deeply_closed(props[i].1);
                        }
                    },
                    _ => {
                        assert(required_of(ps2) == required_of(ps));
                    },
                }
            } else if t == Some(JsonModel::Str(k_array())) {
                lemma_strict_array_lookups(ps);
                match obj_lookup(ps, k_items()) {
                    Some(it) => {
                        lemma_lookup_decreases(ps, k_items());
                        lemma_strictify_deeply_closed(it);
                    },
                    None => {},
                }
            } else {
                match obj_lookup(ps, k_one_of()) {
                    Some(JsonModel::Arr(bs)) => {
                        lemma_lookup_set(ps, k_one_of(), JsonModel::Arr(strict_list(bs)));
                        assert(ps2 == obj_set(ps, k_one_of(), JsonModel::Arr(strict_list(bs))));
                    },
                    _ => {
                        assert(ps2 == ps);
                    },
                }
            }
            match obj_lookup(ps, k_one_of()) {
                Some(JsonModel::Arr(bs)) => {
                    let bv = strict_list(bs);
                    lemma_strict_list(bs);
                    assert forall|i: int| #![trigger bv[i]] 0 <= i < bv.len() implies deeply_closed(
                        bv[i],
                    ) by {
                        lemma_lookup_decreases(ps, k_one_of());
                        assert(decreases_to!(JsonModel::Arr(bs) => bs));
                        assert(decreases_to!(bs => bs[i]));
                        lemma_strictify_deeply_closed(bs[i]);
                    }
                },
                _ => {},
            }
            assert(deeply_closed(JsonModel::Obj(ps2)));
        },
        _ => {},
    }
}

} // verus!
