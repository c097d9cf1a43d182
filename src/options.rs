//! The option bag of the hashed builders: a list of `name = value` tokens,
//! given in any order, folded into one options record.
use vstd::prelude::*;

verus! {

/// Which hashing strategy a bag asks for. It is validated and recorded only:
/// the builders take the strategy from their hasher type parameter.
#[derive(Clone, Copy, Debug, PartialEq, Eq, Structural)]
pub enum HasherKind {
    /// The standard strategy.
    Regular,
    /// A strategy of the caller's choosing, made by its `Default`.
    Custom,
}

/// The names of the recognised options.
#[derive(Clone, Copy, Debug, PartialEq, Eq, Structural)]
pub enum OptionName {
    Capacity,
    Hasher,
    KeyMap,
}

/// One `name = value` token of an option bag. `Unrecognized` carries a name
/// that is none of `capacity`, `hasher` and `key_map`.
pub enum OptionToken<F> {
    Capacity(usize),
    Hasher(HasherKind),
    KeyMap(F),
    Unrecognized(String),
}

/// Why an option bag was refused.
#[derive(Debug)]
pub enum OptionError {
    /// A token's name is not a recognised option.
    UnknownOption(String),
    /// A recognised option was given more than once.
    DuplicateOption(OptionName),
}

/// The resolved options of one build call.
pub struct BuildOptions<F> {
    /// Explicit capacity hint; `None` (or zero) means "count the entries".
    pub capacity: Option<usize>,
    /// The hashing strategy asked for; recorded, not acted on (the hasher
    /// type of the container decides).
    pub hasher: HasherKind,
    /// A transform applied to each key (or element) before insertion.
    pub key_map: Option<F>,
}

/// What the fold has gathered so far: each field is `Some` once its option
/// has been given.
pub struct Gathered<F> {
    pub capacity: Option<usize>,
    pub hasher: Option<HasherKind>,
    pub key_map: Option<F>,
}

/// The error of a fold, with the name carried as plain text.
pub enum OptionFault {
    Unknown(Seq<char>),
    Duplicate(OptionName),
}

/// Nothing gathered yet: the start of the fold.
pub open spec fn no_options<F>() -> Gathered<F> {
    Gathered { capacity: None, hasher: None, key_map: None }
}

/// The name of a recognised token; `None` for an unrecognised one.
pub open spec fn token_name<F>(t: OptionToken<F>) -> Option<OptionName> {
    match t {
        OptionToken::Capacity(_) => Some(OptionName::Capacity),
        OptionToken::Hasher(_) => Some(OptionName::Hasher),
        OptionToken::KeyMap(_) => Some(OptionName::KeyMap),
        OptionToken::Unrecognized(_) => None,
    }
}

/// One step of the fold: take one token into what has been gathered.
pub open spec fn gather_one<F>(g: Gathered<F>, t: OptionToken<F>) -> Result<Gathered<F>, OptionFault> {
    match t {
        OptionToken::Capacity(c) => if g.capacity is Some {
            Err(OptionFault::Duplicate(OptionName::Capacity))
        } else {
            Ok(Gathered { capacity: Some(c), ..g })
        },
        OptionToken::Hasher(h) => if g.hasher is Some {
            Err(OptionFault::Duplicate(OptionName::Hasher))
        } else {
            Ok(Gathered { hasher: Some(h), ..g })
        },
        OptionToken::KeyMap(f) => if g.key_map is Some {
            Err(OptionFault::Duplicate(OptionName::KeyMap))
        } else {
            Ok(Gathered { key_map: Some(f), ..g })
        },
        OptionToken::Unrecognized(name) => Err(OptionFault::Unknown(name@)),
    }
}

/// The fold over the whole bag, token by token from the front; the first
/// token that is unknown or repeats an earlier name decides the error.
pub open spec fn gather<F>(tokens: Seq<OptionToken<F>>) -> Result<Gathered<F>, OptionFault>
    decreases tokens.len(),
{
    if tokens.len() == 0 {
        Ok(no_options())
    } else {
        match gather(tokens.drop_last()) {
            Ok(g) => gather_one(g, tokens.last()),
            Err(e) => Err(e),
        }
    }
}

/// The record that a successful fold resolves to, defaults filled in.
pub open spec fn resolved<F>(g: Gathered<F>) -> BuildOptions<F> {
    BuildOptions {
        capacity: g.capacity,
        hasher: match g.hasher {
            Some(h) => h,
            None => HasherKind::Regular,
        },
        key_map: g.key_map,
    }
}

/// What `resolve_options` returns on a bag, as a spec value.
pub open spec fn resolve_spec<F>(tokens: Seq<OptionToken<F>>) -> Result<BuildOptions<F>, OptionFault> {
    match gather(tokens) {
        Ok(g) => Ok(resolved(g)),
        Err(e) => Err(e),
    }
}

/// The plain-text form of an error.
pub open spec fn fault_of(e: OptionError) -> OptionFault {
    match e {
        OptionError::UnknownOption(name) => OptionFault::Unknown(name@),
        OptionError::DuplicateOption(n) => OptionFault::Duplicate(n),
    }
}

/// A bag is valid when every token is recognised and no two tokens share a name.
pub open spec fn options_valid<F>(tokens: Seq<OptionToken<F>>) -> bool {
    &&& forall|i: int| 0 <= i < tokens.len() ==> (#[trigger] token_name(tokens[i])) is Some
    &&& forall|i: int, j: int|
        0 <= i < j < tokens.len() ==> token_name(#[trigger] tokens[i]) != token_name(
            #[trigger] tokens[j],
        )
}

/// Once a prefix of the bag fails, the whole bag fails with the same error.
pub proof fn lemma_gather_err_extends<F>(tokens: Seq<OptionToken<F>>, i: int)
    requires
        0 <= i <= tokens.len(),
        gather(tokens.subrange(0, i)) is Err,
    ensures
        gather(tokens) == gather(tokens.subrange(0, i)),
    decreases tokens.len() - i,
{
    if i < tokens.len() {
        assert(tokens.subrange(0, i + 1).drop_last() == tokens.subrange(0, i));
        lemma_gather_err_extends(tokens, i + 1);
    } else {
        assert(tokens.subrange(0, i) == tokens);
    }
}

/// Folds an option bag into one record. Tokens may come in any order; an
/// unrecognised name or a name given twice is an error, and no value given
/// twice ever overrides another.
pub fn resolve_options<F>(tokens: Vec<OptionToken<F>>) -> (r: Result<BuildOptions<F>, OptionError>)
    ensures
        match r {
            Ok(o) => resolve_spec(tokens@) == Ok::<BuildOptions<F>, OptionFault>(o),
            Err(e) => resolve_spec(tokens@) == Err::<BuildOptions<F>, OptionFault>(fault_of(e)),
        },
{
    let ghost all = tokens@;
    let mut capacity: Option<usize> = None;
    let mut hasher: Option<HasherKind> = None;
    let mut key_map: Option<F> = None;
    let mut rest = tokens;
    let n: usize = rest.len();
    let mut i: usize = 0;
    while i < n
        invariant
            all == tokens@,
            n == all.len(),
            i <= n,
            rest@ == all.subrange(i as int, n as int),
            gather(all.subrange(0, i as int)) == Ok::<Gathered<F>, OptionFault>(
                Gathered { capacity, hasher, key_map },
            ),
        decreases n - i,
    {
        let t = rest.remove(0);
        proof {
            assert(t == all[i as int]);
            assert(all.subrange(0, i + 1).drop_last() == all.subrange(0, i as int));
            assert(all.subrange(0, i + 1).last() == all[i as int]);
        }
        match t {
            OptionToken::Capacity(c) => {
                if capacity.is_some() {
                    proof {
                        lemma_gather_err_extends(all, i + 1);
                    }
                    return Err(OptionError::DuplicateOption(OptionName::Capacity));
                }
                capacity = Some(c);
            },
            OptionToken::Hasher(h) => {
                if hasher.is_some() {
                    proof {
                        lemma_gather_err_extends(all, i + 1);
                    }
                    return Err(OptionError::DuplicateOption(OptionName::Hasher));
                }
                hasher = Some(h);
            },
            OptionToken::KeyMap(f) => {
                if key_map.is_some() {
                    proof {
                        lemma_gather_err_extends(all, i + 1);
                    }
                    return Err(OptionError::DuplicateOption(OptionName::KeyMap));
                }
                key_map = Some(f);
            },
            OptionToken::Unrecognized(name) => {
                proof {
                    lemma_gather_err_extends(all, i + 1);
                }
                return Err(OptionError::UnknownOption(name));
            },
        }
        i = i + 1;
    }
    proof {
        assert(all.subrange(0, n as int) == all);
    }
    let hasher = match hasher {
        Some(h) => h,
        None => HasherKind::Regular,
    };
    Ok(BuildOptions { capacity, hasher, key_map })
}

} // verus!

verus! {

/// What a gathered record holds is exactly what the bag gives.
pub open spec fn gathered_from<F>(g: Gathered<F>, tokens: Seq<OptionToken<F>>) -> bool {
    &&& forall|c: usize| g.capacity == Some(c) <==> tokens.contains(OptionToken::<F>::Capacity(c))
    &&& forall|h: HasherKind| g.hasher == Some(h) <==> tokens.contains(OptionToken::<F>::Hasher(h))
    &&& forall|f: F| g.key_map == Some(f) <==> tokens.contains(OptionToken::<F>::KeyMap(f))
}

/// Whether the option of that name has been gathered.
pub open spec fn gathered_has<F>(g: Gathered<F>, name: OptionName) -> bool {
    match name {
        OptionName::Capacity => g.capacity is Some,
        OptionName::Hasher => g.hasher is Some,
        OptionName::KeyMap => g.key_map is Some,
    }
}

/// A record gathered from a bag has an option exactly when the bag holds a
/// token of that name.
proof fn lemma_gathered_names<F>(g: Gathered<F>, tokens: Seq<OptionToken<F>>, name: OptionName)
    requires
        gathered_from(g, tokens),
    ensures
        gathered_has(g, name) <==> exists|i: int|
            0 <= i < tokens.len() && token_name(#[trigger] tokens[i]) == Some(name),
{
    if exists|i: int| 0 <= i < tokens.len() && token_name(#[trigger] tokens[i]) == Some(name) {
        let i = choose|i: int| 0 <= i < tokens.len() && token_name(#[trigger] tokens[i]) == Some(name);
        assert(tokens.contains(tokens[i]));
        match tokens[i] {
            OptionToken::Capacity(c) => assert(g.capacity == Some(c)),
            OptionToken::Hasher(h) => assert(g.hasher == Some(h)),
            OptionToken::KeyMap(f) => assert(g.key_map == Some(f)),
            OptionToken::Unrecognized(_) => {},
        }
    }
    if gathered_has(g, name) {
        let t = match name {
            OptionName::Capacity => OptionToken::<F>::Capacity(g.capacity->Some_0),
            OptionName::Hasher => OptionToken::<F>::Hasher(g.hasher->Some_0),
            OptionName::KeyMap => OptionToken::<F>::KeyMap(g.key_map->Some_0),
        };
        assert(tokens.contains(t));
        let i = choose|i: int| 0 <= i < tokens.len() && tokens[i] == t;
        assert(token_name(tokens[i]) == Some(name));
    }
}

/// The fold succeeds exactly on valid bags, and then holds what the bag gives.
pub proof fn lemma_gather_meaning<F>(tokens: Seq<OptionToken<F>>)
    ensures
        gather(tokens) is Ok <==> options_valid(tokens),
        gather(tokens) is Ok ==> gathered_from(gather(tokens)->Ok_0, tokens),
    decreases tokens.len(),
{
    if tokens.len() > 0 {
        let p = tokens.drop_last();
        let t = tokens.last();
        lemma_gather_meaning(p);
        assert(tokens == p.push(t));
        assert forall|x: OptionToken<F>| tokens.contains(x) <==> (p.contains(x) || x == t) by {
            if tokens.contains(x) {
                let k = choose|k: int| 0 <= k < tokens.len() && tokens[k] == x;
                if k < p.len() {
                    assert(p[k] == x);
                }
            }
            if p.contains(x) {
                let k = choose|k: int| 0 <= k < p.len() && p[k] == x;
                assert(tokens[k] == x);
            }
            if x == t {
                assert(tokens[tokens.len() - 1] == x);
            }
        }
        if options_valid(tokens) {
            assert forall|i: int, j: int|
                0 <= i < j < p.len() implies token_name(#[trigger] p[i]) != token_name(
                #[trigger] p[j],
            ) by {
                assert(p[i] == tokens[i] && p[j] == tokens[j]);
            }
            assert forall|i: int| 0 <= i < p.len() implies (#[trigger] token_name(p[i])) is Some by {
                assert(p[i] == tokens[i]);
            }
            assert(options_valid(p));
        }
        match gather(p) {
            Err(_) => {},
            Ok(g) => {
                let last = tokens.len() - 1;
                assert(tokens[last] == t);
                // A recognised name already in `p` makes the last token a repeat.
                assert forall|i: int| 0 <= i < p.len() && token_name(p[i]) == token_name(t)
                    && token_name(t) is Some implies !options_valid(tokens) by {
                    assert(tokens[i] == p[i]);
                    assert(token_name(tokens[i]) == token_name(tokens[last]));
                }
                if let Some(name) = token_name(t) {
                    lemma_gathered_names(g, p, name);
                    if gathered_has(g, name) {
                        let i = choose|i: int| 0 <= i < p.len() && token_name(p[i]) == Some(name);
                        assert(token_name(p[i]) == token_name(t));
                    } else {
                        assert forall|i: int, j: int|
                            0 <= i < j < tokens.len() implies token_name(#[trigger] tokens[i])
                            != token_name(#[trigger] tokens[j]) by {
                            assert(tokens[i] == p[i]);
                            if j < last {
                                assert(tokens[j] == p[j]);
                            }
                        }
                        assert forall|i: int| 0 <= i < tokens.len() implies (#[trigger] token_name(
                            tokens[i],
                        )) is Some by {
                            if i < last {
                                assert(tokens[i] == p[i]);
                            }
                        }
                    }
                } else {
                    assert(token_name(tokens[last]) is None);
                }
            },
        }
    }
}

} // verus!

verus! {

/// A bag is valid exactly when its tokens, taken as a collection, are all
/// recognised, no two different ones share a name, and none is repeated.
proof fn lemma_valid_by_contents<F>(tokens: Seq<OptionToken<F>>)
    ensures
        options_valid(tokens) <==> {
            &&& forall|x: OptionToken<F>| #[trigger] tokens.contains(x) ==> token_name(x) is Some
            &&& forall|x: OptionToken<F>, y: OptionToken<F>|
                #[trigger] tokens.contains(x) && #[trigger] tokens.contains(y) && token_name(x)
                    == token_name(y) ==> x == y
            &&& tokens.no_duplicates()
        },
{
    if options_valid(tokens) {
        assert forall|x: OptionToken<F>, y: OptionToken<F>|
            #[trigger] tokens.contains(x) && #[trigger] tokens.contains(y) && token_name(x)
                == token_name(y) implies x == y by {
            let i = choose|i: int| 0 <= i < tokens.len() && tokens[i] == x;
            let j = choose|j: int| 0 <= j < tokens.len() && tokens[j] == y;
            if i < j {
                assert(token_name(tokens[i]) != token_name(tokens[j]));
            } else if j < i {
                assert(token_name(tokens[j]) != token_name(tokens[i]));
            }
        }
        assert forall|x: OptionToken<F>| #[trigger] tokens.contains(x) implies token_name(
            x,
        ) is Some by {
            let i = choose|i: int| 0 <= i < tokens.len() && tokens[i] == x;
            assert(token_name(tokens[i]) is Some);
        }
        assert forall|i: int, j: int|
            0 <= i < tokens.len() && 0 <= j < tokens.len() && i != j implies tokens[i]
            != tokens[j] by {
            if i < j {
                assert(token_name(tokens[i]) != token_name(tokens[j]));
            } else {
                assert(token_name(tokens[j]) != token_name(tokens[i]));
            }
        }
    }
    if ({
        &&& forall|x: OptionToken<F>| #[trigger] tokens.contains(x) ==> token_name(x) is Some
        &&& forall|x: OptionToken<F>, y: OptionToken<F>|
            #[trigger] tokens.contains(x) && #[trigger] tokens.contains(y) && token_name(x)
                == token_name(y) ==> x == y
        &&& tokens.no_duplicates()
    }) {
        assert forall|i: int| 0 <= i < tokens.len() implies (#[trigger] token_name(
            tokens[i],
        )) is Some by {
            assert(tokens.contains(tokens[i]));
        }
        assert forall|i: int, j: int|
            0 <= i < j < tokens.len() implies token_name(#[trigger] tokens[i]) != token_name(
            #[trigger] tokens[j],
        ) by {
            assert(tokens.contains(tokens[i]) && tokens.contains(tokens[j]));
        }
    }
}

/// The order of the options does not matter: two bags holding the same
/// tokens, in any order, are both accepted or both refused, and when accepted
/// they resolve to the same record.
pub proof fn law_options_order_irrelevant<F>(a: Seq<OptionToken<F>>, b: Seq<OptionToken<F>>)
    requires
        a.to_multiset() == b.to_multiset(),
    ensures
        resolve_spec(a) is Ok <==> resolve_spec(b) is Ok,
        resolve_spec(a) is Ok ==> resolve_spec(a) == resolve_spec(b),
{
    assert forall|x: OptionToken<F>| a.contains(x) <==> b.contains(x) by {
        vstd::seq_lib::to_multiset_contains(a, x);
        vstd::seq_lib::to_multiset_contains(b, x);
        assert(a.to_multiset().count(x) == b.to_multiset().count(x));
    }
    lemma_valid_by_contents(a);
    lemma_valid_by_contents(b);
    lemma_gather_meaning(a);
    lemma_gather_meaning(b);
    if a.no_duplicates() {
        a.lemma_multiset_has_no_duplicates();
        b.lemma_multiset_has_no_duplicates_conv();
    }
    if b.no_duplicates() {
        b.lemma_multiset_has_no_duplicates();
        a.lemma_multiset_has_no_duplicates_conv();
    }
    assert(options_valid(a) <==> options_valid(b));
    if gather(a) is Ok {
        let ga = gather(a)->Ok_0;
        let gb = gather(b)->Ok_0;
        assert(ga.capacity == gb.capacity) by {
            if let Some(c) = ga.capacity {
                assert(b.contains(OptionToken::<F>::Capacity(c)));
            } else if let Some(c) = gb.capacity {
                assert(a.contains(OptionToken::<F>::Capacity(c)));
            }
        }
        assert(ga.hasher == gb.hasher) by {
            if let Some(h) = ga.hasher {
                assert(b.contains(OptionToken::<F>::Hasher(h)));
            } else if let Some(h) = gb.hasher {
                assert(a.contains(OptionToken::<F>::Hasher(h)));
            }
        }
        assert(ga.key_map == gb.key_map) by {
            if let Some(f) = ga.key_map {
                assert(b.contains(OptionToken::<F>::KeyMap(f)));
            } else if let Some(f) = gb.key_map {
                assert(a.contains(OptionToken::<F>::KeyMap(f)));
            }
        }
        assert(ga == gb);
    }
}

/// A token whose name is not recognised makes the whole bag fail.
pub proof fn law_unknown_option_rejected<F>(tokens: Seq<OptionToken<F>>, i: int)
    requires
        0 <= i < tokens.len(),
        tokens[i] is Unrecognized,
    ensures
        resolve_spec(tokens) is Err,
{
    lemma_gather_meaning(tokens);
    assert(token_name(tokens[i]) is None);
}

/// A recognised option given twice makes the whole bag fail: neither value
/// is ever taken.
pub proof fn law_duplicate_option_rejected<F>(tokens: Seq<OptionToken<F>>, i: int, j: int)
    requires
        0 <= i < tokens.len(),
        0 <= j < tokens.len(),
        i != j,
        token_name(tokens[i]) is Some,
        token_name(tokens[i]) == token_name(tokens[j]),
    ensures
        resolve_spec(tokens) is Err,
{
    lemma_gather_meaning(tokens);
    if i < j {
        assert(token_name(tokens[i]) == token_name(tokens[j]));
    } else {
        assert(token_name(tokens[j]) == token_name(tokens[i]));
    }
}

} // verus!
