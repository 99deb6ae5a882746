//! The identifier normalizer: a dependency's canonical (manifest) name may
//! contain `-`, which becomes `_` when the dependency is referenced as a
//! source identifier. A [`NameMap`] maps the identifier form of every
//! declared dependency back to its canonical name.

use vstd::prelude::*;
use crate::Dependency;
use crate::chars::{to_char_vec, chars_eq, subrange_vec};

verus! {

/// The identifier form of a canonical name: every `-` replaced by `_`.
pub open spec fn underscored(s: Seq<char>) -> Seq<char> {
    s.map_values(|c: char| if c == '-' { '_' } else { c })
}

/// Replace every `-` by `_`.
pub fn underscore_vec(s: &Vec<char>) -> (r: Vec<char>)
    ensures
        r@ == underscored(s@),
{
    let mut r: Vec<char> = Vec::new();
    let mut i: usize = 0;
    while i < s.len()
        invariant
            0 <= i <= s@.len(),
            r@ == underscored(s@.subrange(0, i as int)),
        decreases s@.len() - i,
    {
        let c = s[i];
        if c == '-' {
            r.push('_');
        } else {
            r.push(c);
        }
        proof {
            assert(r@ =~= underscored(s@.subrange(0, i + 1)));
        }
        i = i + 1;
    }
    proof {
        assert(s@.subrange(0, s@.len() as int) =~= s@);
    }
    r
}

/// The first value associated with key `k`, if any.
pub open spec fn map_find(entries: Seq<(Seq<char>, Seq<char>)>, k: Seq<char>) -> Option<Seq<char>>
    decreases entries.len(),
{
    if entries.len() == 0 {
        None
    } else if entries[0].0 == k {
        Some(entries[0].1)
    } else {
        map_find(entries.drop_first(), k)
    }
}

/// Reconciliation of a cleaned token: the canonical name it maps to, or
/// the token itself when it is not a known identifier form.
pub open spec fn reconcile(entries: Seq<(Seq<char>, Seq<char>)>, tok: Seq<char>) -> Seq<char> {
    match map_find(entries, tok) {
        Some(v) => v,
        None => tok,
    }
}

/// The mapping from identifier-form names to canonical names, one entry
/// per declared dependency, in declaration order.
pub struct NameMap {
    keys: Vec<Vec<char>>,
    vals: Vec<Vec<char>>,
}

impl View for NameMap {
    type V = Seq<(Seq<char>, Seq<char>)>;

    closed spec fn view(&self) -> Seq<(Seq<char>, Seq<char>)> {
        Seq::new(self.keys@.len(), |i: int| (self.keys@[i]@, self.vals@[i]@))
    }
}

impl NameMap {
    pub closed spec fn wf(&self) -> bool {
        self.keys@.len() == self.vals@.len()
    }

    pub fn new() -> (r: NameMap)
        ensures
            r.wf(),
            r@ == Seq::<(Seq<char>, Seq<char>)>::empty(),
    {
        let r = NameMap { keys: Vec::new(), vals: Vec::new() };
        proof {
            assert(r@ =~= Seq::<(Seq<char>, Seq<char>)>::empty());
        }
        r
    }

    pub fn push(&mut self, key: Vec<char>, val: Vec<char>)
        requires
            old(self).wf(),
        ensures
            final(self).wf(),
            final(self)@ == old(self)@.push((key@, val@)),
    {
        self.keys.push(key);
        self.vals.push(val);
        proof {
            assert(self@ =~= old(self)@.push((key@, val@)));
        }
    }

    /// Look a token up among the identifier forms; `None` when no
    /// declared dependency has this identifier form.
    pub fn find(&self, tok: &Vec<char>) -> (r: Option<Vec<char>>)
        requires
            self.wf(),
        ensures
            match r {
                Some(v) => map_find(self@, tok@) == Some(v@),
                None => map_find(self@, tok@) is None,
            },
    {
        let mut i: usize = 0;
        proof {
            assert(self@.subrange(0, self@.len() as int) =~= self@);
        }
        while i < self.keys.len()
            invariant
                self.wf(),
                0 <= i <= self.keys@.len(),
                map_find(self@, tok@) == map_find(self@.subrange(i as int, self@.len() as int), tok@),
                forall|j: int| 0 <= j < i ==> self@[j].0 != tok@,
            decreases self.keys@.len() - i,
        {
            if chars_eq(&self.keys[i], tok) {
                let v = subrange_vec(&self.vals[i], 0, self.vals[i].len());
                proof {
                    let rest = self@.subrange(i as int, self@.len() as int);
                    assert(rest[0] == self@[i as int]);
                    assert(map_find(rest, tok@) == Some(self@[i as int].1));
                    assert(self.vals@[i as int]@.subrange(0, self.vals@[i as int]@.len() as int)
                        =~= self.vals@[i as int]@);
                }
                return Some(v);
            }
            proof {
                let rest = self@.subrange(i as int, self@.len() as int);
                assert(rest[0] == self@[i as int]);
                assert(rest.drop_first() =~= self@.subrange(i + 1, self@.len() as int));
            }
            i = i + 1;
        }
        proof {
            let rest = self@.subrange(i as int, self@.len() as int);
            assert(rest.len() == 0);
        }
        None
    }

    /// The canonical name a cleaned token stands for.
    pub fn reconcile_token(&self, tok: &Vec<char>) -> (r: Vec<char>)
        requires
            self.wf(),
        ensures
            r@ == reconcile(self@, tok@),
    {
        match self.find(tok) {
            Some(v) => v,
            None => subrange_vec(tok, 0, tok.len()),
        }
    }
}

/// The name map a dependency list induces: for each dependency, its
/// identifier form mapped to its canonical name.
pub open spec fn name_map_of(deps: Seq<crate::DepData>) -> Seq<(Seq<char>, Seq<char>)> {
    Seq::new(deps.len(), |i: int| (underscored(deps[i].name), deps[i].name))
}

/// Build the name map for the declared dependencies.
pub fn build_name_map(deps: &Vec<Dependency>) -> (r: NameMap)
    ensures
        r.wf(),
        r@ == name_map_of(deps@.map_values(|d: Dependency| d@)),
{
    let ghost depsv = deps@.map_values(|d: Dependency| d@);
    let mut r = NameMap::new();
    let mut i: usize = 0;
    while i < deps.len()
        invariant
            r.wf(),
            0 <= i <= deps@.len(),
            depsv == deps@.map_values(|d: Dependency| d@),
            r@ == name_map_of(depsv).subrange(0, i as int),
        decreases deps@.len() - i,
    {
        let name = to_char_vec(deps[i].name.as_str());
        let key = underscore_vec(&name);
        r.push(key, name);
        proof {
            assert(r@ =~= name_map_of(depsv).subrange(0, i + 1));
        }
        i = i + 1;
    }
    proof {
        assert(name_map_of(depsv).subrange(0, depsv.len() as int) =~= name_map_of(depsv));
    }
    r
}

/// The identifier normalizer round trip: a declared dependency whose name
/// contains the separator gets an entry whose key is its identifier form
/// and whose value is the canonical name, and reconciliation of either
/// form yields the canonical name. The requirement that no other
/// dependency shares the identifier form rules out a declaration set such
/// as one containing both spellings of the same name, where a single
/// lookup cannot return both canonical names.
pub proof fn lemma_normalizer_round_trip(deps: Seq<crate::DepData>, ix: int)
    requires
        0 <= ix < deps.len(),
        exists|k: int| 0 <= k < deps[ix].name.len() && deps[ix].name[k] == '-',
        forall|j: int|
            0 <= j < deps.len() && underscored(deps[j].name) == underscored(deps[ix].name)
                ==> deps[j].name == deps[ix].name,
    ensures
        name_map_of(deps)[ix] == (underscored(deps[ix].name), deps[ix].name),
        reconcile(name_map_of(deps), deps[ix].name) == deps[ix].name,
        reconcile(name_map_of(deps), underscored(deps[ix].name)) == deps[ix].name,
{
    let m = name_map_of(deps);
    let n = deps[ix].name;
    // The canonical form still contains '-', so it matches no key.
    let k = choose|k: int| 0 <= k < n.len() && n[k] == '-';
    assert forall|j: int| 0 <= j < m.len() implies m[j].0 != n by {
        if m[j].0 == n {
            assert(underscored(deps[j].name)[k] == '-');
        }
    }
    lemma_map_find_absent(m, n);
    // The identifier form finds an entry whose value is the canonical name.
    lemma_map_find_first(m, underscored(n), deps, ix);
}

proof fn lemma_map_find_absent(m: Seq<(Seq<char>, Seq<char>)>, k: Seq<char>)
    requires
        forall|j: int| 0 <= j < m.len() ==> m[j].0 != k,
    ensures
        map_find(m, k) is None,
    decreases m.len(),
{
    if m.len() > 0 {
        assert(m.drop_first() =~= m.subrange(1, m.len() as int));
        lemma_map_find_absent(m.drop_first(), k);
    }
}

/// When every entry whose key is `u` carries the same value `deps[ix].name`,
/// and entry `ix` has key `u`, the lookup returns that value.
pub proof fn lemma_map_find_first(
    m: Seq<(Seq<char>, Seq<char>)>,
    u: Seq<char>,
    deps: Seq<crate::DepData>,
    ix: int,
)
    requires
        m == name_map_of(deps),
        0 <= ix < deps.len(),
        u == underscored(deps[ix].name),
        forall|j: int|
            0 <= j < deps.len() && underscored(deps[j].name) == u ==> deps[j].name
                == deps[ix].name,
    ensures
        map_find(m, u) == Some(deps[ix].name),
{
    assert(m[ix].0 == u);
    assert forall|j: int| 0 <= j < m.len() && m[j].0 == u implies m[j].1 == deps[ix].name by {
        assert(m[j].0 == underscored(deps[j].name));
        assert(m[j].1 == deps[j].name);
    }
    lemma_map_find_matching(m, u, deps[ix].name, 0);
    assert(m.subrange(0, m.len() as int) =~= m);
}

/// Generic helper: if some entry at or after `i` has key `u`, and every
/// entry with key `u` has value `v`, the suffix lookup returns `v`.
proof fn lemma_map_find_matching(
    m: Seq<(Seq<char>, Seq<char>)>,
    u: Seq<char>,
    v: Seq<char>,
    i: int,
)
    requires
        0 <= i <= m.len(),
        exists|j: int| i <= j < m.len() && m[j].0 == u,
        forall|j: int| 0 <= j < m.len() && m[j].0 == u ==> m[j].1 == v,
    ensures
        map_find(m.subrange(i, m.len() as int), u) == Some(v),
    decreases m.len() - i,
{
    let rest = m.subrange(i, m.len() as int);
    if m[i].0 == u {
        assert(rest[0] == m[i]);
    } else {
        assert(rest[0] == m[i]);
        let j = choose|j: int| i <= j < m.len() && m[j].0 == u;
        assert(i + 1 <= j);
        lemma_map_find_matching(m, u, v, i + 1);
        assert(rest.drop_first() =~= m.subrange(i + 1, m.len() as int));
    }
}

} // verus!
