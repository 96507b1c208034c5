//! The runtime environment: a mapping from variable name to value,
//! created once per interpreter and mutated only by variable
//! definition.  Scopes live in an array-backed arena with parent
//! links; bindings are defined in the innermost scope and looked up
//! along the chain.  Only the global scope is populated today, but the
//! shape accommodates nested scoping.
//!
//! The ghost model of an environment is the `Map` from the name's
//! characters to the value's characters that the innermost chain sees.

use vstd::prelude::*;
use crate::text::str_eq;

verus! {

/// One scope: parallel name/value vectors, later entries shadowing
/// earlier ones, and the index of the enclosing scope.
pub struct Scope {
    pub parent: Option<usize>,
    pub names: Vec<String>,
    pub values: Vec<String>,
}

/// The bindings of one scope, later definitions overwriting earlier
/// ones.
pub open spec fn bindings(names: Seq<String>, values: Seq<String>) -> Map<Seq<char>, Seq<char>>
    decreases names.len(),
{
    if names.len() == 0 || names.len() != values.len() {
        Map::empty()
    } else {
        bindings(names.drop_last(), values.drop_last()).insert(names.last()@, values.last()@)
    }
}

pub struct Environment {
    pub scopes: Vec<Scope>,
}

impl Scope {
    pub open spec fn swf(&self) -> bool {
        self.names@.len() == self.values@.len()
    }

    pub open spec fn smap(&self) -> Map<Seq<char>, Seq<char>> {
        bindings(self.names@, self.values@)
    }
}

/// The map a scope chain sees: the scope's own bindings shadowing the
/// parent chain's.
pub open spec fn chain_map(scopes: Seq<Scope>, i: int) -> Map<Seq<char>, Seq<char>>
    decreases i + 1,
{
    if 0 <= i < scopes.len() {
        match scopes[i].parent {
            Option::Some(p) => if p < i {
                chain_map(scopes, p as int).union_prefer_right(scopes[i].smap())
            } else {
                scopes[i].smap()
            },
            Option::None => scopes[i].smap(),
        }
    } else {
        Map::empty()
    }
}

impl View for Environment {
    type V = Map<Seq<char>, Seq<char>>;

    open spec fn view(&self) -> Map<Seq<char>, Seq<char>> {
        chain_map(self.scopes@, self.scopes@.len() - 1)
    }
}

impl Environment {
    /// Scopes are well formed and every parent link points outward.
    pub open spec fn wf(&self) -> bool {
        &&& self.scopes@.len() >= 1
        &&& forall|i: int| 0 <= i < self.scopes@.len() ==> (#[trigger] self.scopes@[i]).swf()
        &&& forall|i: int| 0 <= i < self.scopes@.len() ==> match (
            #[trigger] self.scopes@[i]).parent {
            Option::Some(p) => p < i,
            Option::None => true,
        }
    }

    /// A fresh environment: one empty global scope.
    pub fn new() -> (r: Environment)
        ensures
            r.wf(),
            r@ == Map::<Seq<char>, Seq<char>>::empty(),
    {
        let mut scopes: Vec<Scope> = Vec::new();
        scopes.push(Scope { parent: Option::None, names: Vec::new(), values: Vec::new() });
        let r = Environment { scopes };
        proof {
            assert(r.scopes@[0].smap() =~= Map::<Seq<char>, Seq<char>>::empty());
        }
        r
    }

    /// Binds `name` to `value` in the innermost scope, shadowing any
    /// earlier binding.
    pub fn define(&mut self, name: String, value: String)
        requires
            old(self).wf(),
        ensures
            final(self).wf(),
            final(self)@ == old(self)@.insert(name@, value@),
    {
        let ghost pre = *old(self);
        let mut top = match self.scopes.pop() {
            Option::Some(s) => s,
            Option::None => Scope { parent: Option::None, names: Vec::new(), values: Vec::new() },
        };
        let ghost top0 = top;
        top.names.push(name);
        top.values.push(value);
        proof {
            assert(top.names@.drop_last() =~= top0.names@);
            assert(top.values@.drop_last() =~= top0.values@);
        }
        self.scopes.push(top);
        proof {
            let n = pre.scopes@.len() - 1;
            assert(self.scopes@ =~= pre.scopes@.update(n, self.scopes@[n]));
            assert(self.scopes@[n].smap() == pre.scopes@[n].smap().insert(name@, value@));
            assert(forall|k: int| 0 <= k < n ==> self.scopes@[k] == pre.scopes@[k]);
            lemma_chain_same(pre.scopes@, self.scopes@, n - 1);
            match self.scopes@[n].parent {
                Option::Some(p) => {
                    if p < n {
                        lemma_chain_same(pre.scopes@, self.scopes@, p as int);
                        assert(chain_map(self.scopes@, n) =~= chain_map(pre.scopes@, n).insert(
                            name@,
                            value@,
                        ));
                    }
                },
                Option::None => {
                    assert(chain_map(self.scopes@, n) =~= chain_map(pre.scopes@, n).insert(
                        name@,
                        value@,
                    ));
                },
            }
        }
    }

    /// The value bound to `name`, looked up along the scope chain, or
    /// nothing when the name is undefined.
    #[verifier::loop_isolation(false)]
    pub fn get(&self, name: &str) -> (r: Option<String>)
        requires
            self.wf(),
        ensures
            match r {
                Option::Some(v) => self@.contains_key(name@) && v@ == self@[name@],
                Option::None => !self@.contains_key(name@),
            },
    {
        let mut idx: usize = self.scopes.len() - 1;
        loop
            invariant
                idx < self.scopes@.len(),
                chain_agrees(self.scopes@, idx as int, self@, name@),
            decreases idx,
        {
            let sc = &self.scopes[idx];
            let n = sc.names.len();
            let mut j: usize = n;
            proof {
                assert(sc.names@.subrange(0, n as int) =~= sc.names@);
                assert(sc.values@.subrange(0, n as int) =~= sc.values@);
            }
            while j > 0
                invariant
                    j <= n,
                    n == sc.names@.len(),
                    n == sc.values@.len(),
                    map_agrees(
                        bindings(sc.names@.subrange(0, j as int), sc.values@.subrange(0, j as int)),
                        sc.smap(),
                        name@,
                    ),
                decreases j,
            {
                j = j - 1;
                proof {
                    assert(sc.names@.subrange(0, j + 1).drop_last() =~= sc.names@.subrange(
                        0,
                        j as int,
                    ));
                    assert(sc.values@.subrange(0, j + 1).drop_last() =~= sc.values@.subrange(
                        0,
                        j as int,
                    ));
                }
                if str_eq(self.scopes[idx].names[j].as_str(), name) {
                    let v = self.scopes[idx].values[j].clone();
                    return Option::Some(v);
                }
            }
            proof {
                assert(bindings(
                    sc.names@.subrange(0, 0),
                    sc.values@.subrange(0, 0),
                ) =~= Map::<Seq<char>, Seq<char>>::empty());
            }
            match sc.parent {
                Option::Some(p) => {
                    idx = p;
                },
                Option::None => {
                    return Option::None;
                },
            }
        }
    }
}

/// Two scope vectors equal below `i` have the same chain map at `i`.
proof fn lemma_chain_same(a: Seq<Scope>, b: Seq<Scope>, i: int)
    requires
        a.len() == b.len(),
        forall|k: int| 0 <= k <= i ==> a[k] == b[k],
    ensures
        chain_map(a, i) == chain_map(b, i),
    decreases i + 1,
{
    if 0 <= i < a.len() {
        match a[i].parent {
            Option::Some(p) => {
                if p < i {
                    lemma_chain_same(a, b, p as int);
                }
            },
            Option::None => {},
        }
    }
}

/// `m` and `full` agree at `key`: same presence and value.
pub open spec fn map_agrees(
    m: Map<Seq<char>, Seq<char>>,
    full: Map<Seq<char>, Seq<char>>,
    key: Seq<char>,
) -> bool {
    &&& m.contains_key(key) == full.contains_key(key)
    &&& m.contains_key(key) ==> m[key] == full[key]
}

/// The chain from `i` agrees with the whole environment's map at `key`.
pub open spec fn chain_agrees(
    scopes: Seq<Scope>,
    i: int,
    full: Map<Seq<char>, Seq<char>>,
    key: Seq<char>,
) -> bool {
    map_agrees(chain_map(scopes, i), full, key)
}

} // verus!
