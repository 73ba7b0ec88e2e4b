//! In-memory model of the persistent hierarchical key-value store that
//! holds the registration records.
//!
//! A key is addressed by its path, a sequence of name segments below the
//! store's base key; it carries named values, each a string or a 32-bit
//! integer.  The observable state of a store is the map from key paths to
//! value maps; every mutating operation states exactly how it changes
//! that map.  Operations are total: the transactional all-or-nothing
//! behaviour of the real store is represented by the fact that each
//! engine operation is one call that either happens wholly or not at all.

use vstd::prelude::*;
use crate::strutil::str_eq;

verus! {

/// A stored value: a string or a 32-bit integer.
#[derive(Debug)]
pub enum RegVal {
    Str(String),
    Dword(u32),
}

/// The mathematical view of a stored value.
pub enum RegValV {
    S(Seq<char>),
    D(u32),
}

/// The view of a stored value.
pub open spec fn val_view(v: RegVal) -> RegValV {
    match v {
        RegVal::Str(s) => RegValV::S(s@),
        RegVal::Dword(d) => RegValV::D(d),
    }
}

impl Clone for RegVal {
    fn clone(&self) -> (r: Self)
        ensures
            val_view(r) == val_view(*self),
    {
        match self {
            RegVal::Str(s) => RegVal::Str(s.clone()),
            RegVal::Dword(d) => RegVal::Dword(*d),
        }
    }
}

/// One named value of a key.
#[derive(Debug)]
pub struct RegValueEntry {
    pub name: String,
    pub val: RegVal,
}

/// One key of the store: its path below the base key and its values.
#[derive(Debug)]
pub struct RegKeyEntry {
    pub path: Vec<String>,
    pub values: Vec<RegValueEntry>,
}

/// The map that a value list denotes.
pub open spec fn values_map(vs: Seq<RegValueEntry>) -> Map<Seq<char>, RegValV>
    decreases vs.len(),
{
    if vs.len() == 0 {
        Map::empty()
    } else {
        values_map(vs.drop_last()).insert(vs.last().name@, val_view(vs.last().val))
    }
}

/// The map that a key list denotes, from key path to value map.
pub open spec fn store_map_of(ks: Seq<RegKeyEntry>) -> Map<Seq<Seq<char>>, Map<Seq<char>, RegValV>>
    decreases ks.len(),
{
    if ks.len() == 0 {
        Map::empty()
    } else {
        store_map_of(ks.drop_last()).insert(
            ks.last().path.deep_view(),
            values_map(ks.last().values@),
        )
    }
}

/// The in-memory store.
#[derive(Debug)]
pub struct RegistryData {
    pub keys: Vec<RegKeyEntry>,
}

impl RegistryData {
    /// The observable state of the store.
    pub open spec fn map_v(&self) -> Map<Seq<Seq<char>>, Map<Seq<char>, RegValV>> {
        store_map_of(self.keys@)
    }

    /// Well-formedness: key paths are pairwise distinct, value names are
    /// distinct within each key, and no key has the empty path.
    pub open spec fn wf(&self) -> bool {
        &&& forall|i: int, j: int|
            0 <= i < j < self.keys@.len() ==> self.keys@[i].path.deep_view() != self.keys@[
                j
            ].path.deep_view()
        &&& forall|i: int, p: int, q: int|
            #![trigger self.keys@[i].values@[p], self.keys@[i].values@[q]]
            0 <= i < self.keys@.len() && 0 <= p < q < self.keys@[i].values@.len() ==> self.keys@[
                i
            ].values@[p].name@ != self.keys@[i].values@[q].name@
        &&& forall|i: int| 0 <= i < self.keys@.len() ==> (#[trigger] self.keys@[i]).path@.len() > 0
    }

    /// An empty store.
    pub fn new_empty() -> (r: Self)
        ensures
            r.wf(),
            r.map_v() == Map::<Seq<Seq<char>>, Map<Seq<char>, RegValV>>::empty(),
    {
        RegistryData { keys: Vec::new() }
    }
}

/// Membership in a value list is membership in its map.
pub proof fn lemma_values_map_index(vs: Seq<RegValueEntry>, i: int)
    requires
        0 <= i < vs.len(),
        forall|p: int, q: int| 0 <= p < q < vs.len() ==> vs[p].name@ != vs[q].name@,
    ensures
        values_map(vs).contains_key(vs[i].name@),
        values_map(vs)[vs[i].name@] == val_view(vs[i].val),
    decreases vs.len(),
{
    if i == vs.len() - 1 {
    } else {
        assert(forall|p: int, q: int|
            0 <= p < q < vs.drop_last().len() ==> vs.drop_last()[p].name@ != vs.drop_last()[
                q
            ].name@);
        lemma_values_map_index(vs.drop_last(), i);
        assert(vs.last().name@ != vs[i].name@);
    }
}

/// A name held by no entry is not in the map.
pub proof fn lemma_values_map_absent(vs: Seq<RegValueEntry>, n: Seq<char>)
    requires
        forall|i: int| 0 <= i < vs.len() ==> (#[trigger] vs[i]).name@ != n,
    ensures
        !values_map(vs).contains_key(n),
    decreases vs.len(),
{
    if vs.len() > 0 {
        assert(forall|i: int|
            0 <= i < vs.drop_last().len() ==> (#[trigger] vs.drop_last()[i]).name@ != n);
        lemma_values_map_absent(vs.drop_last(), n);
    }
}

/// Membership in a key list is membership in its map.
pub proof fn lemma_store_map_index(ks: Seq<RegKeyEntry>, i: int)
    requires
        0 <= i < ks.len(),
        forall|p: int, q: int| 0 <= p < q < ks.len() ==> ks[p].path.deep_view() != ks[
            q
        ].path.deep_view(),
    ensures
        store_map_of(ks).contains_key(ks[i].path.deep_view()),
        store_map_of(ks)[ks[i].path.deep_view()] == values_map(ks[i].values@),
    decreases ks.len(),
{
    if i == ks.len() - 1 {
    } else {
        assert(forall|p: int, q: int|
            0 <= p < q < ks.drop_last().len() ==> ks.drop_last()[p].path.deep_view()
                != ks.drop_last()[q].path.deep_view());
        lemma_store_map_index(ks.drop_last(), i);
        assert(ks.last().path.deep_view() != ks[i].path.deep_view());
    }
}

/// A path held by no entry is not in the map.
pub proof fn lemma_store_map_absent(ks: Seq<RegKeyEntry>, p: Seq<Seq<char>>)
    requires
        forall|i: int| 0 <= i < ks.len() ==> (#[trigger] ks[i]).path.deep_view() != p,
    ensures
        !store_map_of(ks).contains_key(p),
    decreases ks.len(),
{
    if ks.len() > 0 {
        assert(forall|i: int|
            0 <= i < ks.drop_last().len() ==> (#[trigger] ks.drop_last()[i]).path.deep_view() != p);
        lemma_store_map_absent(ks.drop_last(), p);
    }
}

/// Every path in the map is held by some entry.
pub proof fn lemma_store_map_dom(ks: Seq<RegKeyEntry>, p: Seq<Seq<char>>)
    requires
        store_map_of(ks).contains_key(p),
    ensures
        exists|i: int| 0 <= i < ks.len() && (#[trigger] ks[i]).path.deep_view() == p,
    decreases ks.len(),
{
    if ks.len() > 0 {
        if ks.last().path.deep_view() == p {
            assert(ks[ks.len() - 1].path.deep_view() == p);
        } else {
            lemma_store_map_dom(ks.drop_last(), p);
            let i = choose|i: int|
                0 <= i < ks.drop_last().len() && (#[trigger] ks.drop_last()[i]).path.deep_view()
                    == p;
            assert(ks[i].path.deep_view() == p);
        }
    }
}

/// A key map with `p` and all its non-empty ancestors added, holding
/// empty value maps where they were absent.
pub open spec fn spec_create_key(
    m: Map<Seq<Seq<char>>, Map<Seq<char>, RegValV>>,
    p: Seq<Seq<char>>,
) -> Map<Seq<Seq<char>>, Map<Seq<char>, RegValV>>
    decreases p.len(),
{
    if p.len() == 0 {
        m
    } else {
        let m0 = spec_create_key(m, p.drop_last());
        if m0.contains_key(p) {
            m0
        } else {
            m0.insert(p, Map::empty())
        }
    }
}

/// A key map with the value `n` of the key at `p` set to `v`, the key and
/// its ancestors created as needed.
pub open spec fn spec_set_value(
    m: Map<Seq<Seq<char>>, Map<Seq<char>, RegValV>>,
    p: Seq<Seq<char>>,
    n: Seq<char>,
    v: RegValV,
) -> Map<Seq<Seq<char>>, Map<Seq<char>, RegValV>>
    recommends
        p.len() > 0,
{
    let m0 = spec_create_key(m, p);
    m0.insert(p, m0[p].insert(n, v))
}

/// Whether path `q` is `p` itself or lies below it.
pub open spec fn path_extends(q: Seq<Seq<char>>, p: Seq<Seq<char>>) -> bool {
    q.len() >= p.len() && q.take(p.len() as int) == p
}

/// A key map with the key at `p` and every key below it removed.
pub open spec fn spec_delete_tree(
    m: Map<Seq<Seq<char>>, Map<Seq<char>, RegValV>>,
    p: Seq<Seq<char>>,
) -> Map<Seq<Seq<char>>, Map<Seq<char>, RegValV>> {
    Map::new(|q: Seq<Seq<char>>| m.dom().contains(q) && !path_extends(q, p), |q: Seq<Seq<char>>| m[q])
}

/// What creating a key holds at each path: existing keys keep their value
/// maps, the non-empty prefixes of `p` exist (empty where new), nothing
/// else exists.
pub proof fn lemma_create_key_pointwise(
    m: Map<Seq<Seq<char>>, Map<Seq<char>, RegValV>>,
    p: Seq<Seq<char>>,
    q: Seq<Seq<char>>,
)
    ensures
        spec_create_key(m, p).contains_key(q) <==> m.contains_key(q) || (0 < q.len() <= p.len()
            && q == p.take(q.len() as int)),
        spec_create_key(m, p).contains_key(q) ==> spec_create_key(m, p)[q] == (if m.contains_key(
            q,
        ) {
            m[q]
        } else {
            Map::<Seq<char>, RegValV>::empty()
        }),
    decreases p.len(),
{
    if p.len() > 0 {
        lemma_create_key_pointwise(m, p.drop_last(), q);
        if q.len() <= p.len() - 1 {
            assert(p.drop_last().take(q.len() as int) =~= p.take(q.len() as int));
        }
        if q.len() == p.len() && q == p.take(q.len() as int) {
            assert(p.take(p.len() as int) =~= p);
        }
        if q == p {
            assert(p.take(p.len() as int) =~= p);
        }
    }
}

/// What setting a value holds at each path.
pub proof fn lemma_set_value_pointwise(
    m: Map<Seq<Seq<char>>, Map<Seq<char>, RegValV>>,
    p: Seq<Seq<char>>,
    n: Seq<char>,
    v: RegValV,
    q: Seq<Seq<char>>,
)
    requires
        p.len() > 0,
    ensures
        q == p ==> spec_set_value(m, p, n, v).contains_key(q) && spec_set_value(m, p, n, v)[q]
            == (if m.contains_key(p) {
            m[p]
        } else {
            Map::<Seq<char>, RegValV>::empty()
        }).insert(n, v),
        q != p ==> (spec_set_value(m, p, n, v).contains_key(q) <==> m.contains_key(q) || (0
            < q.len() < p.len() && q == p.take(q.len() as int))),
        q != p && spec_set_value(m, p, n, v).contains_key(q) ==> spec_set_value(m, p, n, v)[q]
            == (if m.contains_key(q) {
            m[q]
        } else {
            Map::<Seq<char>, RegValV>::empty()
        }),
{
    lemma_create_key_pointwise(m, p, q);
    lemma_create_key_pointwise(m, p, p);
    assert(p.take(p.len() as int) =~= p);
    if q != p && q.len() == p.len() && q.take(q.len() as int) == q {
        assert(q.take(q.len() as int) =~= q);
    }
}

/// Removing the entry at `i` removes its path from the map.
pub proof fn lemma_store_map_remove(ks: Seq<RegKeyEntry>, i: int)
    requires
        0 <= i < ks.len(),
        forall|p: int, q: int| 0 <= p < q < ks.len() ==> ks[p].path.deep_view() != ks[
            q
        ].path.deep_view(),
    ensures
        store_map_of(ks.remove(i)) == store_map_of(ks).remove(ks[i].path.deep_view()),
    decreases ks.len(),
{
    let p = ks[i].path.deep_view();
    if i == ks.len() - 1 {
        assert(ks.remove(i) =~= ks.drop_last());
        assert(forall|j: int|
            0 <= j < ks.drop_last().len() ==> (#[trigger] ks.drop_last()[j]).path.deep_view()
                != p);
        lemma_store_map_absent(ks.drop_last(), p);
        assert(store_map_of(ks.drop_last()) =~= store_map_of(ks).remove(p));
    } else {
        assert(ks.remove(i).drop_last() =~= ks.drop_last().remove(i));
        assert(forall|a: int, b: int|
            0 <= a < b < ks.drop_last().len() ==> ks.drop_last()[a].path.deep_view()
                != ks.drop_last()[b].path.deep_view());
        lemma_store_map_remove(ks.drop_last(), i);
        assert(ks.remove(i).last() == ks.last());
        assert(ks.last().path.deep_view() != p);
        assert(store_map_of(ks.remove(i)) == store_map_of(ks.drop_last().remove(i)).insert(
            ks.last().path.deep_view(),
            values_map(ks.last().values@),
        ));
        assert(store_map_of(ks).remove(p) =~= store_map_of(ks.drop_last()).remove(p).insert(
            ks.last().path.deep_view(),
            values_map(ks.last().values@),
        ));
    }
}

/// Replacing the entry at `j` of a value list, keeping its name, updates
/// the map at that name.
proof fn lemma_values_map_update(vs: Seq<RegValueEntry>, j: int, e: RegValueEntry)
    requires
        0 <= j < vs.len(),
        e.name@ == vs[j].name@,
        forall|p: int, q: int| 0 <= p < q < vs.len() ==> vs[p].name@ != vs[q].name@,
    ensures
        values_map(vs.update(j, e)) == values_map(vs).insert(e.name@, val_view(e.val)),
    decreases vs.len(),
{
    if j == vs.len() - 1 {
        assert(vs.update(j, e).drop_last() =~= vs.drop_last());
        assert(vs.update(j, e).last() == e);
    } else {
        assert(vs.update(j, e).drop_last() =~= vs.drop_last().update(j, e));
        assert(forall|p: int, q: int|
            0 <= p < q < vs.drop_last().len() ==> vs.drop_last()[p].name@ != vs.drop_last()[
                q
            ].name@);
        lemma_values_map_update(vs.drop_last(), j, e);
        assert(vs.update(j, e).last() == vs.last());
        assert(vs.last().name@ != e.name@);
        assert(values_map(vs.update(j, e)) == values_map(vs.drop_last()).insert(
            e.name@,
            val_view(e.val),
        ).insert(vs.last().name@, val_view(vs.last().val)));
        assert(values_map(vs.update(j, e)) =~= values_map(vs).insert(e.name@, val_view(e.val)));
    }
}

/// Removing the entry at `j` of a value list removes its name from the
/// map.
proof fn lemma_values_map_remove(vs: Seq<RegValueEntry>, j: int)
    requires
        0 <= j < vs.len(),
        forall|p: int, q: int| 0 <= p < q < vs.len() ==> vs[p].name@ != vs[q].name@,
    ensures
        values_map(vs.remove(j)) == values_map(vs).remove(vs[j].name@),
    decreases vs.len(),
{
    let n = vs[j].name@;
    if j == vs.len() - 1 {
        assert(vs.remove(j) =~= vs.drop_last());
        assert(forall|i: int|
            0 <= i < vs.drop_last().len() ==> (#[trigger] vs.drop_last()[i]).name@ != n);
        lemma_values_map_absent(vs.drop_last(), n);
        assert(values_map(vs.drop_last()) =~= values_map(vs).remove(n));
    } else {
        assert(vs.remove(j).drop_last() =~= vs.drop_last().remove(j));
        assert(forall|a: int, b: int|
            0 <= a < b < vs.drop_last().len() ==> vs.drop_last()[a].name@ != vs.drop_last()[
                b
            ].name@);
        lemma_values_map_remove(vs.drop_last(), j);
        assert(vs.remove(j).last() == vs.last());
        assert(vs.last().name@ != n);
        assert(values_map(vs.remove(j)) == values_map(vs.drop_last()).remove(n).insert(
            vs.last().name@,
            val_view(vs.last().val),
        ));
        assert(values_map(vs.remove(j)) =~= values_map(vs).remove(n));
    }
}

/// Copy the first `l` segments of a path.
fn path_prefix(path: &Vec<String>, l: usize) -> (r: Vec<String>)
    requires
        l <= path@.len(),
    ensures
        r@.len() == l,
        r.deep_view() == path.deep_view().take(l as int),
{
    let mut r: Vec<String> = Vec::new();
    let mut i: usize = 0;
    while i < l
        invariant
            i <= l,
            l <= path@.len(),
            r@.len() == i,
            forall|k: int| 0 <= k < i ==> r@[k]@ == path@[k]@,
        decreases l - i,
    {
        r.push(path[i].clone());
        i = i + 1;
    }
    proof {
        assert(r.deep_view() =~= path.deep_view().take(l as int));
    }
    r
}

/// Whether the path of `q` is `p` itself or lies below it.
pub fn path_extends_exec(q: &Vec<String>, p: &Vec<String>) -> (r: bool)
    ensures
        r == path_extends(q.deep_view(), p.deep_view()),
{
    if q.len() < p.len() {
        proof {
            assert(q.deep_view().len() == q@.len());
            assert(p.deep_view().len() == p@.len());
        }
        return false;
    }
    let n = p.len();
    let mut i: usize = 0;
    while i < n
        invariant
            i <= n,
            n == p@.len(),
            n <= q@.len(),
            forall|k: int| 0 <= k < i ==> q@[k]@ == p@[k]@,
        decreases n - i,
    {
        if !str_eq(q[i].as_str(), p[i].as_str()) {
            proof {
                assert(q.deep_view().take(n as int)[i as int] == q@[i as int]@);
                assert(p.deep_view()[i as int] == p@[i as int]@);
            }
            return false;
        }
        i = i + 1;
    }
    proof {
        assert(q.deep_view().take(n as int) =~= p.deep_view());
    }
    true
}

/// Whether two path vectors denote the same path.
pub fn path_eq(a: &Vec<String>, b: &Vec<String>) -> (r: bool)
    ensures
        r <==> a.deep_view() == b.deep_view(),
{
    if a.len() != b.len() {
        proof {
            assert(a.deep_view().len() == a@.len());
            assert(b.deep_view().len() == b@.len());
        }
        return false;
    }
    let n = a.len();
    let mut i: usize = 0;
    while i < n
        invariant
            i <= n,
            n == a@.len(),
            n == b@.len(),
            forall|k: int| 0 <= k < i ==> a@[k]@ == b@[k]@,
        decreases n - i,
    {
        if !str_eq(a[i].as_str(), b[i].as_str()) {
            proof {
                assert(a.deep_view()[i as int] == a@[i as int]@);
                assert(b.deep_view()[i as int] == b@[i as int]@);
            }
            return false;
        }
        i = i + 1;
    }
    proof {
        assert(a.deep_view() =~= b.deep_view());
    }
    true
}

impl RegistryData {
    /// Index of the entry holding `path`, if any.
    fn find_key(&self, path: &Vec<String>) -> (r: Option<usize>)
        requires
            self.wf(),
        ensures
            match r {
                Some(i) => i < self.keys@.len() && self.keys@[i as int].path.deep_view()
                    == path.deep_view() && self.map_v().contains_key(path.deep_view())
                    && self.map_v()[path.deep_view()] == values_map(
                    self.keys@[i as int].values@,
                ),
                None => !self.map_v().contains_key(path.deep_view()),
            },
    {
        let n = self.keys.len();
        let mut i: usize = 0;
        while i < n
            invariant
                i <= n,
                n == self.keys@.len(),
                self.wf(),
                forall|k: int|
                    0 <= k < i ==> (#[trigger] self.keys@[k]).path.deep_view()
                        != path.deep_view(),
            decreases n - i,
        {
            if path_eq(&self.keys[i].path, path) {
                proof {
                    lemma_store_map_index(self.keys@, i as int);
                }
                return Some(i);
            }
            i = i + 1;
        }
        proof {
            lemma_store_map_absent(self.keys@, path.deep_view());
        }
        None
    }

    /// Whether the store holds a key at `path`.
    pub fn key_exists(&self, path: &Vec<String>) -> (r: bool)
        requires
            self.wf(),
        ensures
            r <==> self.map_v().contains_key(path.deep_view()),
    {
        self.find_key(path).is_some()
    }

    /// Read the value named `name` of the key at `path`.
    pub fn get_value(&self, path: &Vec<String>, name: &str) -> (r: Option<RegVal>)
        requires
            self.wf(),
        ensures
            ({
                let m = self.map_v();
                let p = path.deep_view();
                match r {
                    Some(v) => m.contains_key(p) && m[p].contains_key(name@) && val_view(v)
                        == m[p][name@],
                    None => !m.contains_key(p) || !m[p].contains_key(name@),
                }
            }),
    {
        let ki = match self.find_key(path) {
            Some(i) => i,
            None => {
                return None;
            },
        };
        let vs = &self.keys[ki].values;
        let n = vs.len();
        let mut i: usize = 0;
        while i < n
            invariant
                i <= n,
                self.wf(),
                ki < self.keys@.len(),
                vs == &self.keys@[ki as int].values,
                n == vs@.len(),
                self.map_v().contains_key(path.deep_view()),
                self.map_v()[path.deep_view()] == values_map(vs@),
                forall|k: int| 0 <= k < i ==> (#[trigger] vs@[k]).name@ != name@,
            decreases n - i,
        {
            if str_eq(vs[i].name.as_str(), name) {
                proof {
                    lemma_values_map_index(vs@, i as int);
                }
                return Some(vs[i].val.clone());
            }
            i = i + 1;
        }
        proof {
            lemma_values_map_absent(vs@, name@);
        }
        None
    }

    /// Set the value named `name` of the key at `path` to `val`, creating
    /// the key and its ancestors as needed.
    pub fn set_value(&mut self, path: &Vec<String>, name: &str, val: RegVal)
        requires
            old(self).wf(),
            path@.len() > 0,
        ensures
            final(self).wf(),
            final(self).map_v() == spec_set_value(
                old(self).map_v(),
                path.deep_view(),
                name@,
                val_view(val),
            ),
    {
        let ghost m_orig = self.map_v();
        let ghost dp = path.deep_view();
        proof {
            assert(dp.len() == path@.len());
            assert(dp.take(0) =~= Seq::<Seq<char>>::empty());
        }
        // create the key and its ancestors
        let n = path.len();
        let mut l: usize = 0;
        while l < n
            invariant
                l <= n,
                n == path@.len(),
                dp == path.deep_view(),
                self.wf(),
                self.map_v() == spec_create_key(m_orig, dp.take(l as int)),
            decreases n - l,
        {
            let prefix = path_prefix(path, l + 1);
            proof {
                assert(dp.take(l + 1).drop_last() =~= dp.take(l as int));
            }
            if self.find_key(&prefix).is_none() {
                let ghost ks_before = self.keys@;
                self.keys.push(RegKeyEntry { path: prefix, values: Vec::new() });
                proof {
                    assert(self.keys@.drop_last() =~= ks_before);
                    assert(values_map(self.keys@.last().values@) =~= Map::<
                        Seq<char>,
                        RegValV,
                    >::empty());
                    assert forall|i: int, j: int| 0 <= i < j < self.keys@.len() implies self.keys@[
                        i
                    ].path.deep_view() != self.keys@[j].path.deep_view() by {
                        if j == self.keys@.len() - 1 {
                            assert(self.keys@[i] == ks_before[i]);
                            if self.keys@[i].path.deep_view() == dp.take(l + 1) {
                                lemma_store_map_index(ks_before, i);
                            }
                        } else {
                            assert(self.keys@[i] == ks_before[i]);
                            assert(self.keys@[j] == ks_before[j]);
                        }
                    }
                }
            }
            l = l + 1;
        }
        proof {
            assert(dp.take(n as int) =~= dp);
        }
        // set the value on the (now present) key
        let ki = match self.find_key(path) {
            Some(i) => i,
            None => {
                proof {
                    lemma_create_key_pointwise(m_orig, dp, dp);
                    assert(dp.take(dp.len() as int) =~= dp);
                    assert(false);
                }
                return ;
            },
        };
        let ghost m1 = self.map_v();
        let ghost ks1 = self.keys@;
        let mut entry = self.keys.remove(ki);
        proof {
            lemma_store_map_remove(ks1, ki as int);
        }
        let ghost vs_old = entry.values@;
        proof {
            assert(vs_old == ks1[ki as int].values@);
            assert forall|p: int, q: int|
                0 <= p < q < vs_old.len() implies vs_old[p].name@ != vs_old[q].name@ by {
                assert(vs_old[p] == ks1[ki as int].values@[p]);
                assert(vs_old[q] == ks1[ki as int].values@[q]);
            }
            assert(entry.path.deep_view() == dp);
        }
        let vn = entry.values.len();
        let mut j: usize = 0;
        let mut replaced = false;
        while j < vn
            invariant_except_break
                !replaced,
                entry.values@ == vs_old,
                forall|k: int| 0 <= k < j ==> (#[trigger] vs_old[k]).name@ != name@,
            invariant
                j <= vn,
                vn == vs_old.len(),
                entry.path.deep_view() == dp,
                forall|p: int, q: int| 0 <= p < q < vs_old.len() ==> vs_old[p].name@ != vs_old[
                    q
                ].name@,
            ensures
                entry.path.deep_view() == dp,
                replaced ==> values_map(entry.values@) == values_map(vs_old).insert(
                    name@,
                    val_view(val),
                ),
                replaced ==> forall|p: int, q: int|
                    0 <= p < q < entry.values@.len() ==> entry.values@[p].name@ != entry.values@[
                        q
                    ].name@,
                !replaced ==> entry.values@ == vs_old && (forall|k: int|
                    0 <= k < vs_old.len() ==> (#[trigger] vs_old[k]).name@ != name@),
            decreases vn - j,
        {
            if str_eq(entry.values[j].name.as_str(), name) {
                let e = RegValueEntry { name: String::from_str(name), val: val.clone() };
                let _ = entry.values.set(j, e);
                proof {
                    lemma_values_map_update(vs_old, j as int, entry.values@[j as int]);
                    assert(forall|k: int|
                        0 <= k < entry.values@.len() ==> (#[trigger] entry.values@[k]).name@
                            == vs_old[k].name@);
                }
                replaced = true;
                break ;
            }
            j = j + 1;
        }
        if !replaced {
            let e = RegValueEntry { name: String::from_str(name), val };
            proof {
                lemma_values_map_absent(vs_old, name@);
            }
            entry.values.push(e);
            proof {
                assert(entry.values@.drop_last() =~= vs_old);
            }
        }
        let ghost vs_new = entry.values@;
        self.keys.push(entry);
        proof {
            assert(self.keys@.drop_last() =~= ks1.remove(ki as int));
            assert(self.keys@.last().path.deep_view() == dp);
            assert(self.keys@.last().values@ == vs_new);
            // the resulting map
            assert(values_map(vs_new) == values_map(vs_old).insert(name@, val_view(val)));
            assert(self.map_v() == store_map_of(ks1.remove(ki as int)).insert(
                dp,
                values_map(vs_new),
            ));
            lemma_create_key_pointwise(m_orig, dp, dp);
            assert(dp.take(dp.len() as int) =~= dp);
            assert(m1[dp] == values_map(vs_old));
            assert(self.map_v() =~= spec_set_value(m_orig, dp, name@, val_view(val)));
            // well-formedness
            assert forall|i: int, j2: int| 0 <= i < j2 < self.keys@.len() implies self.keys@[
                i
            ].path.deep_view() != self.keys@[j2].path.deep_view() by {
                if j2 == self.keys@.len() - 1 {
                    assert(self.keys@[i] == ks1.remove(ki as int)[i]);
                    if self.keys@[i].path.deep_view() == dp {
                        if i < ki {
                            assert(ks1[i].path.deep_view() == dp);
                            assert(ks1[ki as int].path.deep_view() == dp);
                        } else {
                            assert(ks1[i + 1].path.deep_view() == dp);
                            assert(ks1[ki as int].path.deep_view() == dp);
                        }
                    }
                }
            }
            assert forall|i: int, p: int, q: int|
                #![trigger self.keys@[i].values@[p], self.keys@[i].values@[q]]
                0 <= i < self.keys@.len() && 0 <= p < q < self.keys@[i].values@.len() implies self
                .keys@[i].values@[p].name@ != self.keys@[i].values@[q].name@ by {
                if i < self.keys@.len() - 1 {
                    assert(self.keys@[i] == ks1.remove(ki as int)[i]);
                    if i < ki {
                        assert(self.keys@[i] == ks1[i]);
                    } else {
                        assert(self.keys@[i] == ks1[i + 1]);
                    }
                } else {
                    assert(self.keys@[i].values@ == vs_new);
                    if !replaced {
                        assert(vs_new.drop_last() =~= vs_old);
                        assert(vs_new.last().name@ == name@);
                    }
                }
            }
            assert forall|i: int| 0 <= i < self.keys@.len() implies (#[trigger] self.keys@[
                i
            ]).path@.len() > 0 by {
                if i < self.keys@.len() - 1 {
                    if i < ki {
                        assert(self.keys@[i] == ks1[i]);
                    } else {
                        assert(self.keys@[i] == ks1[i + 1]);
                    }
                } else {
                    assert(self.keys@[i].path@.len() == dp.len());
                }
            }
        }
    }

    /// Delete the key at `path` and every key below it; a no-op when no
    /// such key exists.
    pub fn delete_tree(&mut self, path: &Vec<String>)
        requires
            old(self).wf(),
        ensures
            final(self).wf(),
            final(self).map_v() == spec_delete_tree(old(self).map_v(), path.deep_view()),
    {
        let ghost dp = path.deep_view();
        let mut i: usize = 0;
        while i < self.keys.len()
            invariant
                self.wf(),
                i <= self.keys@.len(),
                dp == path.deep_view(),
                forall|k: int|
                    0 <= k < i ==> !path_extends((#[trigger] self.keys@[k]).path.deep_view(), dp),
                spec_delete_tree(self.map_v(), dp) == spec_delete_tree(old(self).map_v(), dp),
            decreases self.keys@.len() - i,
        {
            if path_extends_exec(&self.keys[i].path, path) {
                let ghost ks = self.keys@;
                let ghost q = ks[i as int].path.deep_view();
                let _ = self.keys.remove(i);
                proof {
                    lemma_store_map_remove(ks, i as int);
                    assert(spec_delete_tree(store_map_of(ks).remove(q), dp) =~= spec_delete_tree(
                        store_map_of(ks),
                        dp,
                    ));
                    assert forall|a: int, b: int|
                        0 <= a < b < self.keys@.len() implies self.keys@[a].path.deep_view()
                        != self.keys@[b].path.deep_view() by {
                        if a < i {
                            assert(self.keys@[a] == ks[a]);
                        } else {
                            assert(self.keys@[a] == ks[a + 1]);
                        }
                        if b < i {
                            assert(self.keys@[b] == ks[b]);
                        } else {
                            assert(self.keys@[b] == ks[b + 1]);
                        }
                    }
                    assert forall|a: int, p: int, q2: int|
                        #![trigger self.keys@[a].values@[p], self.keys@[a].values@[q2]]
                        0 <= a < self.keys@.len() && 0 <= p < q2 < self.keys@[a].values@.len()
                        implies self.keys@[a].values@[p].name@ != self.keys@[a].values@[
                        q2
                    ].name@ by {
                        if a < i {
                            assert(self.keys@[a] == ks[a]);
                        } else {
                            assert(self.keys@[a] == ks[a + 1]);
                        }
                    }
                    assert forall|a: int| 0 <= a < self.keys@.len() implies (#[trigger] self.keys@[
                        a
                    ]).path@.len() > 0 by {
                        if a < i {
                            assert(self.keys@[a] == ks[a]);
                        } else {
                            assert(self.keys@[a] == ks[a + 1]);
                        }
                    }
                    assert forall|k: int|
                        0 <= k < i implies !path_extends(
                        (#[trigger] self.keys@[k]).path.deep_view(),
                        dp,
                    ) by {
                        assert(self.keys@[k] == ks[k]);
                    }
                }
            } else {
                i = i + 1;
            }
        }
        proof {
            assert forall|q: Seq<Seq<char>>| #[trigger]
                self.map_v().contains_key(q) implies !path_extends(q, dp) by {
                lemma_store_map_dom(self.keys@, q);
            }
            assert(self.map_v() =~= spec_delete_tree(self.map_v(), dp));
        }
    }

    /// Delete the value named `name` of the key at `path`; a no-op when
    /// the key or the value is absent.
    pub fn delete_value(&mut self, path: &Vec<String>, name: &str)
        requires
            old(self).wf(),
        ensures
            final(self).wf(),
            final(self).map_v() == ({
                let m = old(self).map_v();
                let p = path.deep_view();
                if m.contains_key(p) && m[p].contains_key(name@) {
                    m.insert(p, m[p].remove(name@))
                } else {
                    m
                }
            }),
    {
        let ghost m_orig = self.map_v();
        let ghost dp = path.deep_view();
        let ki = match self.find_key(path) {
            Some(i) => i,
            None => {
                return ;
            },
        };
        let ghost ks1 = self.keys@;
        let mut entry = self.keys.remove(ki);
        proof {
            lemma_store_map_remove(ks1, ki as int);
        }
        let ghost vs_old = entry.values@;
        proof {
            assert(vs_old == ks1[ki as int].values@);
            assert forall|p: int, q: int|
                0 <= p < q < vs_old.len() implies vs_old[p].name@ != vs_old[q].name@ by {
                assert(vs_old[p] == ks1[ki as int].values@[p]);
                assert(vs_old[q] == ks1[ki as int].values@[q]);
            }
        }
        proof {
            assert(entry.path.deep_view() == dp);
        }
        let vn = entry.values.len();
        let mut j: usize = 0;
        let mut removed = false;
        while j < vn
            invariant_except_break
                !removed,
                entry.values@ == vs_old,
                forall|k: int| 0 <= k < j ==> (#[trigger] vs_old[k]).name@ != name@,
            invariant
                j <= vn,
                vn == vs_old.len(),
                entry.path.deep_view() == dp,
                forall|p: int, q: int| 0 <= p < q < vs_old.len() ==> vs_old[p].name@ != vs_old[
                    q
                ].name@,
            ensures
                entry.path.deep_view() == dp,
                removed ==> values_map(entry.values@) == values_map(vs_old).remove(name@),
                removed ==> forall|p: int, q: int|
                    0 <= p < q < entry.values@.len() ==> entry.values@[p].name@ != entry.values@[
                        q
                    ].name@,
                removed ==> values_map(vs_old).contains_key(name@),
                !removed ==> entry.values@ == vs_old && (forall|k: int|
                    0 <= k < vs_old.len() ==> (#[trigger] vs_old[k]).name@ != name@),
            decreases vn - j,
        {
            if str_eq(entry.values[j].name.as_str(), name) {
                let _ = entry.values.remove(j);
                proof {
                    lemma_values_map_remove(vs_old, j as int);
                    lemma_values_map_index(vs_old, j as int);
                    assert(entry.values@ =~= vs_old.remove(j as int));
                    assert forall|p: int, q: int|
                        0 <= p < q < entry.values@.len() implies entry.values@[p].name@
                        != entry.values@[q].name@ by {
                        if p < j {
                            assert(entry.values@[p] == vs_old[p]);
                        } else {
                            assert(entry.values@[p] == vs_old[p + 1]);
                        }
                        if q < j {
                            assert(entry.values@[q] == vs_old[q]);
                        } else {
                            assert(entry.values@[q] == vs_old[q + 1]);
                        }
                    }
                }
                removed = true;
                break ;
            }
            j = j + 1;
        }
        let ghost vs_new = entry.values@;
        proof {
            if !removed {
                lemma_values_map_absent(vs_old, name@);
            }
        }
        self.keys.push(entry);
        proof {
            assert(self.keys@.drop_last() =~= ks1.remove(ki as int));
            assert(self.keys@.last().path.deep_view() == dp);
            assert(self.keys@.last().values@ == vs_new);
            assert(m_orig[dp] == values_map(vs_old));
            if removed {
                assert(values_map(vs_new) == values_map(vs_old).remove(name@));
                assert(self.map_v() =~= m_orig.insert(dp, m_orig[dp].remove(name@)));
            } else {
                assert(vs_new == vs_old);
                assert(self.map_v() =~= m_orig);
            }
            // well-formedness mirrors the set_value case
            assert forall|i: int, j2: int| 0 <= i < j2 < self.keys@.len() implies self.keys@[
                i
            ].path.deep_view() != self.keys@[j2].path.deep_view() by {
                if j2 == self.keys@.len() - 1 {
                    if self.keys@[i].path.deep_view() == dp {
                        if i < ki {
                            assert(self.keys@[i] == ks1[i]);
                            assert(ks1[ki as int].path.deep_view() == dp);
                        } else {
                            assert(self.keys@[i] == ks1[i + 1]);
                            assert(ks1[ki as int].path.deep_view() == dp);
                        }
                    }
                }
            }
            assert forall|i: int, p: int, q: int|
                #![trigger self.keys@[i].values@[p], self.keys@[i].values@[q]]
                0 <= i < self.keys@.len() && 0 <= p < q < self.keys@[i].values@.len() implies self
                .keys@[i].values@[p].name@ != self.keys@[i].values@[q].name@ by {
                if i < self.keys@.len() - 1 {
                    if i < ki {
                        assert(self.keys@[i] == ks1[i]);
                    } else {
                        assert(self.keys@[i] == ks1[i + 1]);
                    }
                } else {
                    assert(self.keys@[i].values@ == vs_new);
                }
            }
            assert forall|i: int| 0 <= i < self.keys@.len() implies (#[trigger] self.keys@[
                i
            ]).path@.len() > 0 by {
                if i < self.keys@.len() - 1 {
                    if i < ki {
                        assert(self.keys@[i] == ks1[i]);
                    } else {
                        assert(self.keys@[i] == ks1[i + 1]);
                    }
                } else {
                    assert(self.keys@[i].path@.len() == dp.len());
                }
            }
        }
    }

    /// Whether any key lies strictly below `path`.
    pub fn has_subkeys(&self, path: &Vec<String>) -> (r: bool)
        requires
            self.wf(),
        ensures
            r <==> exists|q: Seq<Seq<char>>| #[trigger]
                self.map_v().contains_key(q) && path_extends(q, path.deep_view()) && q.len()
                    > path.deep_view().len(),
    {
        let ghost dp = path.deep_view();
        let n = self.keys.len();
        let mut i: usize = 0;
        while i < n
            invariant
                i <= n,
                n == self.keys@.len(),
                self.wf(),
                dp == path.deep_view(),
                forall|k: int|
                    0 <= k < i ==> !(path_extends(
                        (#[trigger] self.keys@[k]).path.deep_view(),
                        dp,
                    ) && self.keys@[k].path.deep_view().len() > dp.len()),
            decreases n - i,
        {
            if self.keys[i].path.len() > path.len() && path_extends_exec(&self.keys[i].path, path) {
                proof {
                    lemma_store_map_index(self.keys@, i as int);
                    assert(self.map_v().contains_key(self.keys@[i as int].path.deep_view())
                        && path_extends(self.keys@[i as int].path.deep_view(), dp) && self.keys@[
                        i as int
                    ].path.deep_view().len() > dp.len());
                }
                return true;
            }
            i = i + 1;
        }
        proof {
            assert forall|q: Seq<Seq<char>>| #[trigger]
                self.map_v().contains_key(q) implies !(path_extends(q, dp) && q.len()
                > dp.len()) by {
                lemma_store_map_dom(self.keys@, q);
            }
        }
        false
    }

    /// Whether the key at `path` exists and holds at least one value.
    pub fn has_values(&self, path: &Vec<String>) -> (r: bool)
        requires
            self.wf(),
        ensures
            ({
                let m = self.map_v();
                let p = path.deep_view();
                r <==> (m.contains_key(p) && exists|n: Seq<char>| m[p].contains_key(n))
            }),
    {
        match self.find_key(path) {
            None => false,
            Some(i) => {
                let vs = &self.keys[i].values;
                if vs.len() > 0 {
                    proof {
                        lemma_values_map_index(vs@, vs@.len() - 1);
                    }
                    true
                } else {
                    proof {
                        assert(values_map(vs@) =~= Map::<Seq<char>, RegValV>::empty());
                    }
                    false
                }
            },
        }
    }
}

} // verus!
