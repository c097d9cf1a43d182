//! Ready-made sets of owned strings, built from literal lists.
use vstd::prelude::*;
use std::collections::HashSet;
use vstd::std_specs::hash::obeys_key_model;
use crate::builders::hashset;

verus! {

/// The text of the strings a set holds.
pub open spec fn texts(s: Set<String>) -> Set<Seq<char>> {
    s.map(|x: String| x@)
}

/// The set of two owned strings with different texts holds exactly those
/// texts, and two strings.
proof fn lemma_texts_of_pair(a: String, b: String)
    requires
        a@ != b@,
    ensures
        texts(seq![a, b].to_set()) == set![a@, b@],
        seq![a, b].to_set().len() == 2,
{
    let s = seq![a, b];
    assert(s[0] == a && s[1] == b);
    assert(s.to_set().contains(a) && s.to_set().contains(b));
    assert forall|y: Seq<char>| #[trigger] texts(s.to_set()).contains(y) <==> set![a@, b@].contains(y) by {
        if texts(s.to_set()).contains(y) {
            let x = choose|x: String| s.to_set().contains(x) && x@ == y;
            assert(s.contains(x));
        }
        if y == a@ {
            assert(s.to_set().contains(a) && a@ == y);
        }
        if y == b@ {
            assert(s.to_set().contains(b) && b@ == y);
        }
    }
    assert(texts(s.to_set()) =~= set![a@, b@]);
    assert(s.to_set() =~= set![a, b]);
    assert(a != b);
    assert(set![a, b].len() == 2);
}

/// The set of owned strings `a1` and `a2`.
pub fn make_map() -> (s: HashSet<String>)
    ensures
        obeys_key_model::<String>() ==> texts(s@) == set!["a1"@, "a2"@],
        obeys_key_model::<String>() ==> s@.len() == 2,
{
    let a = "a1".to_owned();
    let b = "a2".to_owned();
    let ghost pair = (a, b);
    let s = hashset(vec![a, b]);
    proof {
        reveal_strlit("a1");
        reveal_strlit("a2");
        assert(pair.0@[1] != pair.1@[1]);
        lemma_texts_of_pair(pair.0, pair.1);
    }
    s
}

/// The set of owned strings `a` and `b`, each converted from a string slice.
pub fn convert() -> (s: HashSet<String>)
    ensures
        obeys_key_model::<String>() ==> texts(s@) == set!["a"@, "b"@],
        obeys_key_model::<String>() ==> s@.len() == 2,
{
    let a = "a".to_owned();
    let b = "b".to_owned();
    let ghost pair = (a, b);
    let s = hashset(vec![a, b]);
    proof {
        reveal_strlit("a");
        reveal_strlit("b");
        assert(pair.0@[0] != pair.1@[0]);
        lemma_texts_of_pair(pair.0, pair.1);
    }
    s
}

} // verus!
