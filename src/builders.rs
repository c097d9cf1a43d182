//! The four builders: each takes the entries as values, in the order they
//! are to be inserted, and returns the filled container.
use vstd::prelude::*;
use std::collections::{BTreeMap, BTreeSet, HashMap, HashSet};
use std::hash::{BuildHasher, Hash};
use vstd::laws_cmp::obeys_cmp;
use vstd::std_specs::hash::{builds_valid_hashers, obeys_key_model};
use crate::entries::entry_count;
use crate::options::{
    lemma_gather_meaning, resolve_options, resolve_spec, BuildOptions, OptionError, OptionToken,
    gather,
};

verus! {

/// The map that inserting `entries` one after another into an empty map
/// gives: a later entry for a key replaces an earlier one.
pub open spec fn map_of<K, V>(entries: Seq<(K, V)>) -> Map<K, V>
    decreases entries.len(),
{
    if entries.len() == 0 {
        Map::empty()
    } else {
        map_of(entries.drop_last()).insert(entries.last().0, entries.last().1)
    }
}

/// Relies on `HashMap::try_reserve`: it only sets capacity aside, never
/// changes what the map holds, and reports an overflowing or failed
/// allocation as an error instead of panicking. The capacity is a hint, so
/// that error is dropped.
#[verifier::external_body]
fn reserve_map<K: Eq + Hash, V, S: BuildHasher>(m: &mut HashMap<K, V, S>, additional: usize)
    ensures
        final(m)@ == old(m)@,
{
    let _ = m.try_reserve(additional);
}

/// Relies on `HashSet::try_reserve`: it only sets capacity aside, never
/// changes what the set holds, and reports an overflowing or failed
/// allocation as an error instead of panicking. The capacity is a hint, so
/// that error is dropped.
#[verifier::external_body]
fn reserve_set<T: Eq + Hash, S: BuildHasher>(s: &mut HashSet<T, S>, additional: usize)
    ensures
        final(s)@ == old(s)@,
{
    let _ = s.try_reserve(additional);
}

/// Builds a hash map holding `entries`, sized for them up front.
pub fn hashmap<K: Eq + Hash, V>(entries: Vec<(K, V)>) -> (m: HashMap<K, V>)
    ensures
        obeys_key_model::<K>() ==> m@ == map_of(entries@),
{
    let ghost all = entries@;
    let mut m: HashMap<K, V> = HashMap::new();
    reserve_map(&mut m, entry_count(&entries));
    for e in it: entries.into_iter()
        invariant
            it.seq() == all,
            obeys_key_model::<K>() ==> m@ == map_of(all.take(it.index() as int)),
    {
        proof {
            assert(all.take(it.index() + 1).drop_last() == all.take(it.index() as int));
        }
        m.insert(e.0, e.1);
    }
    proof {
        assert(all.take(all.len() as int) == all);
    }
    m
}

/// Builds a hash set holding `elements`, sized for them up front.
pub fn hashset<T: Eq + Hash>(elements: Vec<T>) -> (s: HashSet<T>)
    ensures
        obeys_key_model::<T>() ==> s@ == elements@.to_set(),
{
    let ghost all = elements@;
    let mut s: HashSet<T> = HashSet::new();
    reserve_set(&mut s, entry_count(&elements));
    for x in it: elements.into_iter()
        invariant
            it.seq() == all,
            obeys_key_model::<T>() ==> s@ == all.take(it.index() as int).to_set(),
    {
        proof {
            lemma_take_push_to_set(all, it.index() as int);
        }
        s.insert(x);
    }
    proof {
        assert(all.take(all.len() as int) == all);
    }
    s
}

/// Builds an ordered map holding `entries`.
pub fn btreemap<K: Ord, V>(entries: Vec<(K, V)>) -> (m: BTreeMap<K, V>)
    ensures
        obeys_cmp::<K>() ==> m@ == map_of(entries@),
{
    let ghost all = entries@;
    let mut m: BTreeMap<K, V> = BTreeMap::new();
    for e in it: entries.into_iter()
        invariant
            it.seq() == all,
            obeys_cmp::<K>() ==> m@ == map_of(all.take(it.index() as int)),
    {
        proof {
            assert(all.take(it.index() + 1).drop_last() == all.take(it.index() as int));
        }
        m.insert(e.0, e.1);
    }
    proof {
        assert(all.take(all.len() as int) == all);
    }
    m
}

/// Builds an ordered set holding `elements`.
pub fn btreeset<T: Ord>(elements: Vec<T>) -> (s: BTreeSet<T>)
    ensures
        obeys_cmp::<T>() ==> s@ == elements@.to_set(),
{
    let ghost all = elements@;
    let mut s: BTreeSet<T> = BTreeSet::new();
    for x in it: elements.into_iter()
        invariant
            it.seq() == all,
            obeys_cmp::<T>() ==> s@ == all.take(it.index() as int).to_set(),
    {
        proof {
            lemma_take_push_to_set(all, it.index() as int);
        }
        s.insert(x);
    }
    proof {
        assert(all.take(all.len() as int) == all);
    }
    s
}

/// Taking one more element of a sequence adds that element to the set.
proof fn lemma_take_push_to_set<T>(s: Seq<T>, i: int)
    requires
        0 <= i < s.len(),
    ensures
        s.take(i + 1).to_set() == s.take(i).to_set().insert(s[i]),
{
    let a = s.take(i + 1);
    let b = s.take(i);
    assert(a == b.push(s[i]));
    assert forall|x: T| #[trigger] s.take(i + 1).to_set().contains(x) <==> s.take(i).to_set().insert(
        s[i],
    ).contains(x) by {
        if a.contains(x) {
            let k = choose|k: int| 0 <= k < a.len() && a[k] == x;
            if k < i {
                assert(b[k] == x);
            }
        }
        if b.contains(x) {
            let k = choose|k: int| 0 <= k < b.len() && b[k] == x;
            assert(a[k] == x);
        }
        if x == s[i] {
            assert(a[i] == x);
        }
    }
    assert(s.take(i + 1).to_set() =~= s.take(i).to_set().insert(s[i]));
}

/// The capacity to allocate: an explicit non-zero hint, else the number of
/// entries.
pub open spec fn capacity_for(capacity: Option<usize>, count: usize) -> usize {
    match capacity {
        Some(c) => if c != 0 { c } else { count },
        None => count,
    }
}

/// The capacity a hashed builder allocates for `count` entries.
pub fn effective_capacity(capacity: Option<usize>, count: usize) -> (r: usize)
    ensures
        r == capacity_for(capacity, count),
{
    match capacity {
        Some(c) => if c != 0 { c } else { count },
        None => count,
    }
}

/// Whether a key transform, if there is one, accepts every key.
pub open spec fn key_map_total<K, F: Fn(K) -> K>(key_map: Option<F>) -> bool {
    match key_map {
        Some(f) => forall|k: K| #[trigger] f.requires((k,)),
        None => true,
    }
}

/// `out` is `entries` with `f` applied to each key, values and order kept.
pub open spec fn keys_mapped_by<K, V, F: Fn(K) -> K>(
    f: F,
    entries: Seq<(K, V)>,
    out: Seq<(K, V)>,
) -> bool {
    &&& out.len() == entries.len()
    &&& forall|i: int|
        0 <= i < entries.len() ==> out[i].1 == entries[i].1 && f.ensures(
            (entries[i].0,),
            #[trigger] out[i].0,
        )
}

/// `out` is `elements` with `f` applied to each, order kept.
pub open spec fn elements_mapped_by<T, F: Fn(T) -> T>(f: F, elements: Seq<T>, out: Seq<T>) -> bool {
    &&& out.len() == elements.len()
    &&& forall|i: int| 0 <= i < elements.len() ==> f.ensures((elements[i],), #[trigger] out[i])
}

/// What a map built from `entries` with a key transform holds.
pub open spec fn built_map<K, V, F: Fn(K) -> K>(
    m: Map<K, V>,
    entries: Seq<(K, V)>,
    key_map: Option<F>,
) -> bool {
    match key_map {
        None => m == map_of(entries),
        Some(f) => exists|out: Seq<(K, V)>| keys_mapped_by(f, entries, out) && m == map_of(out),
    }
}

/// What a set built from `elements` with a key transform holds.
pub open spec fn built_set<T, F: Fn(T) -> T>(s: Set<T>, elements: Seq<T>, key_map: Option<F>) -> bool {
    match key_map {
        None => s == elements.to_set(),
        Some(f) => exists|out: Seq<T>| elements_mapped_by(f, elements, out) && s == out.to_set(),
    }
}

/// Builds a hash map from `entries` under resolved options: sized by
/// `capacity_for`, each key passed through `key_map` when it is set.
/// The `hasher` field has no effect here: the hashing strategy is the type
/// parameter `S`, made by its `Default` (`RandomState` is the regular one).
pub fn build_hash_map<K: Eq + Hash, V, S: BuildHasher + Default, F: Fn(K) -> K>(
    entries: Vec<(K, V)>,
    options: BuildOptions<F>,
) -> (m: HashMap<K, V, S>)
    requires
        key_map_total(options.key_map),
    ensures
        obeys_key_model::<K>() && builds_valid_hashers::<S>() ==> built_map(
            m@,
            entries@,
            options.key_map,
        ),
{
    let ghost all = entries@;
    let capacity = effective_capacity(options.capacity, entry_count(&entries));
    let mut m: HashMap<K, V, S> = HashMap::default();
    reserve_map(&mut m, capacity);
    let ghost mut out: Seq<(K, V)> = Seq::empty();
    for e in it: entries.into_iter()
        invariant
            it.seq() == all,
            key_map_total(options.key_map),
            out.len() == it.index(),
            forall|i: int| 0 <= i < out.len() ==> out[i].1 == all[i].1,
            match options.key_map {
                Some(f) => forall|i: int|
                    0 <= i < out.len() ==> f.ensures((all[i].0,), #[trigger] out[i].0),
                None => out == all.take(it.index() as int),
            },
            obeys_key_model::<K>() && builds_valid_hashers::<S>() ==> m@ == map_of(out),
    {
        let (k, v) = e;
        let k = match &options.key_map {
            Some(f) => f(k),
            None => k,
        };
        proof {
            let o = out.push((k, v));
            assert(o.drop_last() == out);
            if options.key_map is None {
                assert(o == all.take(it.index() + 1));
            }
            out = o;
        }
        m.insert(k, v);
    }
    proof {
        assert(all.take(all.len() as int) == all);
        if let Some(f) = options.key_map {
            assert(keys_mapped_by(f, all, out));
        }
    }
    m
}

/// Builds a hash set from `elements` under resolved options: sized by
/// `capacity_for`, each element passed through `key_map` when it is set.
/// The `hasher` field has no effect here: the hashing strategy is the type
/// parameter `S`, made by its `Default` (`RandomState` is the regular one).
pub fn build_hash_set<T: Eq + Hash, S: BuildHasher + Default, F: Fn(T) -> T>(
    elements: Vec<T>,
    options: BuildOptions<F>,
) -> (s: HashSet<T, S>)
    requires
        key_map_total(options.key_map),
    ensures
        obeys_key_model::<T>() && builds_valid_hashers::<S>() ==> built_set(
            s@,
            elements@,
            options.key_map,
        ),
{
    let ghost all = elements@;
    let capacity = effective_capacity(options.capacity, entry_count(&elements));
    let mut s: HashSet<T, S> = HashSet::default();
    reserve_set(&mut s, capacity);
    let ghost mut out: Seq<T> = Seq::empty();
    for x in it: elements.into_iter()
        invariant
            it.seq() == all,
            key_map_total(options.key_map),
            out.len() == it.index(),
            match options.key_map {
                Some(f) => forall|i: int|
                    0 <= i < out.len() ==> f.ensures((all[i],), #[trigger] out[i]),
                None => out == all.take(it.index() as int),
            },
            obeys_key_model::<T>() && builds_valid_hashers::<S>() ==> s@ == out.to_set(),
    {
        let x = match &options.key_map {
            Some(f) => f(x),
            None => x,
        };
        proof {
            let o = out.push(x);
            lemma_take_push_to_set(o, out.len() as int);
            assert(o.take(out.len() as int) == out);
            assert(o.take(out.len() + 1 as int) == o);
            if options.key_map is None {
                assert(o == all.take(it.index() + 1));
            }
            out = o;
        }
        s.insert(x);
    }
    proof {
        assert(all.take(all.len() as int) == all);
        if let Some(f) = options.key_map {
            assert(elements_mapped_by(f, all, out));
        }
    }
    s
}

/// Whether a bag's key transforms, if any, accept every key.
pub open spec fn tokens_total<K, F: Fn(K) -> K>(tokens: Seq<OptionToken<F>>) -> bool {
    forall|i: int|
        0 <= i < tokens.len() && (#[trigger] tokens[i]) is KeyMap ==> forall|k: K|
            #[trigger] tokens[i]->KeyMap_0.requires((k,))
}

/// A bag whose key transforms accept every key resolves to options whose
/// transform does.
proof fn lemma_resolved_total<K, F: Fn(K) -> K>(tokens: Seq<OptionToken<F>>)
    requires
        tokens_total::<K, F>(tokens),
        resolve_spec(tokens) is Ok,
    ensures
        key_map_total::<K, F>(resolve_spec(tokens)->Ok_0.key_map),
{
    lemma_gather_meaning(tokens);
    if let Some(f) = gather(tokens)->Ok_0.key_map {
        assert(tokens.contains(OptionToken::<F>::KeyMap(f)));
        let i = choose|i: int| 0 <= i < tokens.len() && tokens[i] == OptionToken::<F>::KeyMap(f);
        assert(tokens[i] is KeyMap);
        assert forall|k: K| #[trigger] f.requires((k,)) by {
            assert(tokens[i]->KeyMap_0.requires((k,)));
        }
    }
}

/// Builds a hash map from `entries` and an option bag. The bag is validated
/// first: if it is refused, no entry is touched and the error comes back.
/// A `hasher` option is validated like the others but has no effect: the
/// hashing strategy is the type parameter `S`.
pub fn hashmap_with<K: Eq + Hash, V, S: BuildHasher + Default, F: Fn(K) -> K>(
    entries: Vec<(K, V)>,
    tokens: Vec<OptionToken<F>>,
) -> (r: Result<HashMap<K, V, S>, OptionError>)
    requires
        tokens_total::<K, F>(tokens@),
    ensures
        r is Ok <==> resolve_spec(tokens@) is Ok,
        match r {
            Ok(m) => obeys_key_model::<K>() && builds_valid_hashers::<S>() ==> built_map(
                m@,
                entries@,
                resolve_spec(tokens@)->Ok_0.key_map,
            ),
            Err(e) => resolve_spec(tokens@) == Err::<BuildOptions<F>, _>(
                crate::options::fault_of(e),
            ),
        },
{
    let ghost bag = tokens@;
    match resolve_options(tokens) {
        Ok(options) => {
            proof {
                lemma_resolved_total::<K, F>(bag);
            }
            Ok(build_hash_map(entries, options))
        },
        Err(e) => Err(e),
    }
}

/// Builds a hash set from `elements` and an option bag. The bag is validated
/// first: if it is refused, no element is touched and the error comes back.
/// A `hasher` option is validated like the others but has no effect: the
/// hashing strategy is the type parameter `S`.
pub fn hashset_with<T: Eq + Hash, S: BuildHasher + Default, F: Fn(T) -> T>(
    elements: Vec<T>,
    tokens: Vec<OptionToken<F>>,
) -> (r: Result<HashSet<T, S>, OptionError>)
    requires
        tokens_total::<T, F>(tokens@),
    ensures
        r is Ok <==> resolve_spec(tokens@) is Ok,
        match r {
            Ok(s) => obeys_key_model::<T>() && builds_valid_hashers::<S>() ==> built_set(
                s@,
                elements@,
                resolve_spec(tokens@)->Ok_0.key_map,
            ),
            Err(e) => resolve_spec(tokens@) == Err::<BuildOptions<F>, _>(
                crate::options::fault_of(e),
            ),
        },
{
    let ghost bag = tokens@;
    match resolve_options(tokens) {
        Ok(options) => {
            proof {
                lemma_resolved_total::<T, F>(bag);
            }
            Ok(build_hash_set(elements, options))
        },
        Err(e) => Err(e),
    }
}

/// The keys of `entries`, in order.
pub open spec fn keys_of<K, V>(entries: Seq<(K, V)>) -> Seq<K> {
    entries.map_values(|e: (K, V)| e.0)
}

/// A map built from entries holds one binding per distinct key, so its
/// length is the number of distinct keys; the value bound to a key is that
/// of the last entry with that key.
pub proof fn law_map_holds_distinct_keys<K, V>(entries: Seq<(K, V)>)
    ensures
        map_of(entries).dom() == keys_of(entries).to_set(),
        map_of(entries).len() == keys_of(entries).to_set().len(),
        forall|i: int|
            #![trigger entries[i]]
            0 <= i < entries.len() && (forall|j: int| i < j < entries.len() ==> entries[j].0 != entries[i].0)
                ==> map_of(entries)[entries[i].0] == entries[i].1,
    decreases entries.len(),
{
    if entries.len() > 0 {
        let p = entries.drop_last();
        let last = entries.len() - 1;
        law_map_holds_distinct_keys(p);
        assert(keys_of(entries) == keys_of(p).push(entries[last].0));
        lemma_push_to_set(keys_of(p), entries[last].0);
        assert(map_of(entries).dom() == keys_of(entries).to_set());
        assert forall|i: int|
            #![trigger entries[i]]
            0 <= i < entries.len() && (forall|j: int| i < j < entries.len() ==> entries[j].0 != entries[i].0)
                implies map_of(entries)[entries[i].0] == entries[i].1 by {
            if i < last {
                assert(entries[last].0 != entries[i].0);
                assert(p[i] == entries[i]);
                assert forall|j: int| i < j < p.len() implies p[j].0 != p[i].0 by {
                    assert(p[j] == entries[j]);
                }
            }
        }
    }
}

/// Pushing an element onto a sequence adds it to the set.
proof fn lemma_push_to_set<T>(s: Seq<T>, x: T)
    ensures
        s.push(x).to_set() == s.to_set().insert(x),
{
    let t = s.push(x);
    assert(t.take(s.len() as int) == s);
    assert(t.take(s.len() + 1 as int) == t);
    lemma_take_push_to_set(t, s.len() as int);
}

} // verus!
