//! Values for symbolic dimensions.
use crate::json;
use crate::names;
use crate::names::NameMap;
use crate::text;
use crate::types::{Dimension, DimensionV};
use vstd::prelude::*;

verus! {

/// The upper bound of a dynamic dimension about which nothing is known.
pub const DEFAULT_MAX_SIZE: u32 = 65_535;

/// The value of a name in a list of pairs; the first pair counts.
pub open spec fn pair_value(v: Seq<(Seq<char>, Seq<char>)>, key: Seq<char>) -> Option<Seq<char>> {
    let at = names::key_pos(v, key);
    if at < v.len() {
        Some(v[at].1)
    } else {
        None
    }
}

pub(crate) fn find_pair<'a>(v: &'a Vec<(String, String)>, key: &str) -> (r: Option<&'a String>)
    ensures
        r matches Some(x) ==> pair_value(json::pairs_v(v@), key@) == Some(x@),
        r is None ==> pair_value(json::pairs_v(v@), key@) is None,
{
    let mut i: usize = 0;
    while i < v.len()
        invariant
            i <= v@.len(),
            forall|k: int| 0 <= k < i ==> (#[trigger] json::pairs_v(v@)[k]).0 != key@,
        decreases v@.len() - i,
    {
        if text::str_eq(v[i].0.as_str(), key) {
            proof {
                names::lemma_key_pos(json::pairs_v(v@), key@, i as int);
            }
            return Some(&v[i].1);
        }
        i = i + 1;
    }
    proof {
        names::lemma_key_pos(json::pairs_v(v@), key@, i as int);
    }
    None
}

/// The bindings in a JSON text: the member `freeDimensionOverrides` where there
/// is one, or the text itself.
pub open spec fn bindings(doc: Seq<char>) -> Option<Seq<(Seq<char>, Seq<char>)>> {
    match json::json_object(doc) {
        None => None,
        Some(v) => match pair_value(v, "freeDimensionOverrides"@) {
            Some(inner) => json::json_object(inner),
            None => Some(v),
        },
    }
}

/// Names with the natural numbers that their JSON texts denote.
pub open spec fn numbered(v: Seq<(Seq<char>, Seq<char>)>) -> Seq<(Seq<char>, Option<u64>)> {
    Seq::new(v.len(), |i: int| (v[i].0, json::json_natural(v[i].1)))
}

/// Bindings added in order where a name has none; those without a number are
/// passed over, and numbers are cut to 32 bits.
pub open spec fn with_bindings(
    m: Map<Seq<char>, u32>,
    v: Seq<(Seq<char>, Option<u64>)>,
) -> Map<Seq<char>, u32>
    decreases v.len(),
{
    if v.len() == 0 {
        m
    } else {
        let front = with_bindings(m, v.drop_last());
        match v.last().1 {
            Some(n) => if front.contains_key(v.last().0) {
                front
            } else {
                front.insert(v.last().0, n as u32)
            },
            None => front,
        }
    }
}

/// The overrides with those of a JSON text added.
pub open spec fn merged(m: Map<Seq<char>, u32>, doc: Seq<char>) -> Map<Seq<char>, u32> {
    match bindings(doc) {
        Some(v) => with_bindings(m, numbered(v)),
        None => m,
    }
}

pub open spec fn numbers_v(v: Seq<(String, Option<u64>)>) -> Seq<(Seq<char>, Option<u64>)> {
    Seq::new(v.len(), |i: int| (v[i].0@, v[i].1))
}

fn read_numbers(v: &Vec<(String, String)>) -> (r: Vec<(String, Option<u64>)>)
    ensures
        numbers_v(r@) == numbered(json::pairs_v(v@)),
{
    let mut r: Vec<(String, Option<u64>)> = Vec::new();
    let mut i: usize = 0;
    while i < v.len()
        invariant
            i <= v@.len(),
            r@.len() == i,
            forall|k: int|
                0 <= k < i ==> #[trigger] numbers_v(r@)[k] == numbered(json::pairs_v(v@))[k],
        decreases v@.len() - i,
    {
        let ghost before = r@;
        r.push((v[i].0.clone(), json::read_natural(v[i].1.as_str())));
        assert forall|k: int| 0 <= k < i + 1 implies #[trigger] numbers_v(r@)[k] == numbered(
            json::pairs_v(v@),
        )[k] by {
            if k < i {
                assert(r@[k] == before[k]);
                assert(numbers_v(before)[k] == numbered(json::pairs_v(v@))[k]);
            }
        }
        i = i + 1;
    }
    assert(numbers_v(r@) =~= numbered(json::pairs_v(v@)));
    r
}

/// Adds bindings for names that have no value yet. Those without a number are
/// passed over.
pub fn add_bindings(overrides: &mut NameMap<u32>, v: &Vec<(String, Option<u64>)>)
    ensures
        final(overrides)@ == with_bindings(old(overrides)@, numbers_v(v@)),
{
    let ghost all = numbers_v(v@);
    let ghost start = overrides@;
    let mut i: usize = 0;
    assert(all.take(0) =~= Seq::<(Seq<char>, Option<u64>)>::empty());
    while i < v.len()
        invariant
            i <= v@.len(),
            all == numbers_v(v@),
            overrides@ == with_bindings(start, all.take(i as int)),
        decreases v@.len() - i,
    {
        assert(all.take(i + 1).drop_last() =~= all.take(i as int));
        assert(all[i as int] == (v@[i as int].0@, v@[i as int].1));
        if let Some(n) = v[i].1 {
            overrides.insert_new(v[i].0.clone(), n as u32);
        }
        i = i + 1;
    }
    assert(all.take(i as int) =~= all);
}

/// Adds the dimension bindings of a JSON text (`freeDimensionOverrides`, or a
/// flat object) for names that have no value yet.
pub fn merge_json(overrides: &mut NameMap<u32>, doc: &str)
    ensures
        final(overrides)@ == merged(old(overrides)@, doc@),
{
    let top = match json::read_object(doc) {
        Some(v) => v,
        None => return,
    };
    match find_pair(&top, "freeDimensionOverrides") {
        Some(inner) => {
            if let Some(v) = json::read_object(inner.as_str()) {
                let v = read_numbers(&v);
                add_bindings(overrides, &v);
            }
        },
        None => {
            let v = read_numbers(&top);
            add_bindings(overrides, &v);
        },
    }
}

// ---------------------------------------------------------------------------
// Lookup
// ---------------------------------------------------------------------------

/// The value of a symbol, under its name or its name in lower case.
pub open spec fn override_of(m: Map<Seq<char>, u32>, name: Seq<char>) -> Option<u32> {
    if m.contains_key(name) {
        Some(m[name])
    } else if m.contains_key(text::lower(name)) {
        Some(m[text::lower(name)])
    } else {
        None
    }
}

pub fn resolve_dim_override(name: &String, overrides: &NameMap<u32>) -> (r: Option<u32>)
    ensures
        r == override_of(overrides@, name@),
{
    if let Some(v) = overrides.get(name) {
        return Some(*v);
    }
    let low = text::to_lower(name.as_str());
    match overrides.get(&low) {
        Some(v) => Some(*v),
        None => None,
    }
}

/// The upper bound of a dynamic dimension, by its name.
pub open spec fn dynamic_max(name: Seq<char>) -> u32 {
    let low = text::lower(name);
    if text::has_part(low, "past"@) || text::has_part(low, "seq"@) || text::has_part(
        low,
        "length"@,
    ) || low == "s"@ || low == "t"@ {
        4096
    } else if text::has_part(low, "batch"@) || low == "b"@ || low == "n"@ {
        8
    } else {
        DEFAULT_MAX_SIZE
    }
}

pub fn dynamic_max_for_dim(name: &String) -> (r: u32)
    ensures
        r == dynamic_max(name@),
{
    let low = text::to_lower(name.as_str());
    if text::contains_part(low.as_str(), "past") || text::contains_part(low.as_str(), "seq")
        || text::contains_part(low.as_str(), "length") || text::str_eq(low.as_str(), "s")
        || text::str_eq(low.as_str(), "t") {
        4096
    } else if text::contains_part(low.as_str(), "batch") || text::str_eq(low.as_str(), "b")
        || text::str_eq(low.as_str(), "n") {
        8
    } else {
        DEFAULT_MAX_SIZE
    }
}

/// A symbol as a dimension: its value, or a dynamic dimension.
pub open spec fn symbol_dimension(m: Map<Seq<char>, u32>, name: Seq<char>) -> DimensionV {
    match override_of(m, name) {
        Some(v) => DimensionV::Static(v),
        None => DimensionV::Dynamic { name, max_size: dynamic_max(name) },
    }
}

pub fn dimension_for_param(name: &String, overrides: &NameMap<u32>) -> (r: Dimension)
    ensures
        r@ == symbol_dimension(overrides@, name@),
{
    match resolve_dim_override(name, overrides) {
        Some(v) => Dimension::Static(v),
        None => Dimension::Dynamic { name: name.clone(), max_size: dynamic_max_for_dim(name) },
    }
}

/// The names of batch dimensions, which are 1 where nothing says otherwise.
pub open spec fn is_batch_name(low: Seq<char>) -> bool {
    low == "batch_size"@ || low == "batch"@ || low == "n"@ || low == "b"@
}

/// The value of a symbol for shape inference.
pub open spec fn inference_value(m: Map<Seq<char>, u32>, name: Seq<char>) -> Option<u32> {
    match override_of(m, name) {
        Some(v) => Some(v),
        None => if is_batch_name(text::lower(name)) {
            Some(1)
        } else {
            None
        },
    }
}

/// The overrides once a symbol was looked up for shape inference: a batch
/// dimension without a value has one from then on.
pub open spec fn inference_overrides(m: Map<Seq<char>, u32>, name: Seq<char>) -> Map<
    Seq<char>,
    u32,
> {
    if override_of(m, name) is None && is_batch_name(text::lower(name)) {
        m.insert(name, 1)
    } else {
        m
    }
}

pub fn resolve_dim_for_inference(name: &String, overrides: &mut NameMap<u32>) -> (r: Option<u32>)
    ensures
        r == inference_value(old(overrides)@, name@),
        final(overrides)@ == inference_overrides(old(overrides)@, name@),
{
    if let Some(v) = resolve_dim_override(name, overrides) {
        return Some(v);
    }
    let low = text::to_lower(name.as_str());
    if text::str_eq(low.as_str(), "batch_size") || text::str_eq(low.as_str(), "batch")
        || text::str_eq(low.as_str(), "n") || text::str_eq(low.as_str(), "b") {
        overrides.insert(name.clone(), 1);
        return Some(1);
    }
    None
}

// ---------------------------------------------------------------------------
// Laws
// ---------------------------------------------------------------------------

/// Some entry binds the name to a number.
pub open spec fn is_bound(v: Seq<(Seq<char>, Option<u64>)>, name: Seq<char>) -> bool {
    exists|i: int| 0 <= i < v.len() && (#[trigger] v[i]).0 == name && v[i].1 is Some
}

/// Adding bindings never changes a value that was given before, and gives a
/// value to exactly those other names that an entry binds to a number.
pub proof fn law_bindings_keep_given_values(
    m: Map<Seq<char>, u32>,
    v: Seq<(Seq<char>, Option<u64>)>,
    name: Seq<char>,
)
    ensures
        m.contains_key(name) ==> with_bindings(m, v).contains_key(name) && with_bindings(
            m,
            v,
        )[name] == m[name],
        with_bindings(m, v).contains_key(name) <==> m.contains_key(name) || is_bound(v, name),
    decreases v.len(),
{
    if v.len() > 0 {
        let front = v.drop_last();
        law_bindings_keep_given_values(m, front, name);
        if is_bound(front, name) {
            let i = choose|i: int|
                0 <= i < front.len() && (#[trigger] front[i]).0 == name && front[i].1 is Some;
            assert(v[i] == front[i]);
        }
        if is_bound(v, name) {
            let i = choose|i: int|
                0 <= i < v.len() && (#[trigger] v[i]).0 == name && v[i].1 is Some;
            if i < v.len() - 1 {
                assert(front[i] == v[i]);
            }
        }
        if v.last().0 == name && v.last().1 is Some {
            assert(v[v.len() - 1] == v.last());
        }
    }
}

/// The overrides of a JSON text never replace those given before.
pub proof fn law_merged_overrides_keep_given_values(
    m: Map<Seq<char>, u32>,
    doc: Seq<char>,
    name: Seq<char>,
)
    requires
        m.contains_key(name),
    ensures
        merged(m, doc).contains_key(name),
        merged(m, doc)[name] == m[name],
{
    if let Some(v) = bindings(doc) {
        law_bindings_keep_given_values(m, numbered(v), name);
    }
}

} // verus!
