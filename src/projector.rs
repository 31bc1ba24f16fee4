use vstd::prelude::*;

use crate::config::Config;
use crate::path::{parent_of, parent_path, path_components, same_dir};
use crate::scope::{
    dir_key, dirs_apart, has_dir, keys_distinct, lemma_pairs_push, pairs_map, scope_at, stored_dir,
    Scope, ScopeMap,
};

verus! {

/// The next directory of the walk to the root, if the walk goes on.
pub open spec fn parent_dir(dir: Seq<char>) -> Option<Seq<char>> {
    match parent_path(dir) {
        Some(q) => if q.len() < dir.len() && path_components(dir).len() > 0 && path_components(q)
            == path_components(dir).drop_last() {
            Some(q)
        } else {
            None
        },
        None => None,
    }
}

/// The value of `key` seen from `dir`: the one of the nearest directory on
/// the walk from `dir` to the root whose scope defines it.
pub open spec fn lookup(
    data: Map<Seq<char>, Map<Seq<char>, Seq<char>>>,
    dir: Seq<char>,
    key: Seq<char>,
) -> Option<Seq<char>>
    decreases dir.len(),
{
    if scope_at(data, dir).contains_key(key) {
        Some(scope_at(data, dir)[key])
    } else {
        match parent_dir(dir) {
            Some(q) => lookup(data, q, key),
            None => None,
        }
    }
}

/// Every value seen from `dir`: the scopes from the root down to `dir`,
/// each overriding the keys of those above it.
pub open spec fn merged(
    data: Map<Seq<char>, Map<Seq<char>, Seq<char>>>,
    dir: Seq<char>,
) -> Map<Seq<char>, Seq<char>>
    decreases dir.len(),
{
    let above = match parent_dir(dir) {
        Some(q) => merged(data, q),
        None => Map::empty(),
    };
    above.union_prefer_right(scope_at(data, dir))
}

/// `a` names `d` or a directory on the walk from `d` to the root.
pub open spec fn is_ancestor(a: Seq<char>, d: Seq<char>) -> bool
    decreases d.len(),
{
    same_dir(a, d) || match parent_dir(d) {
        Some(q) => is_ancestor(a, q),
        None => false,
    }
}

/// The store after setting `key` to `value` in the scope of `dir`.
pub open spec fn with_set(
    data: Map<Seq<char>, Map<Seq<char>, Seq<char>>>,
    dir: Seq<char>,
    key: Seq<char>,
    value: Seq<char>,
) -> Map<Seq<char>, Map<Seq<char>, Seq<char>>> {
    data.insert(stored_dir(data, dir), scope_at(data, dir).insert(key, value))
}

/// The store after removing `key` from the scope of `dir`.
pub open spec fn with_removed(
    data: Map<Seq<char>, Map<Seq<char>, Seq<char>>>,
    dir: Seq<char>,
    key: Seq<char>,
) -> Map<Seq<char>, Map<Seq<char>, Seq<char>>> {
    if has_dir(data, path_components(dir)) {
        data.insert(stored_dir(data, dir), scope_at(data, dir).remove(key))
    } else {
        data
    }
}

/// Every directory on the walk from `d` to the root has no more components
/// than `d`.
pub proof fn lemma_ancestor_not_deeper(a: Seq<char>, d: Seq<char>)
    requires
        is_ancestor(a, d),
    ensures
        path_components(a).len() <= path_components(d).len(),
    decreases d.len(),
{
    if !same_dir(a, d) {
        if let Some(q) = parent_dir(d) {
            lemma_ancestor_not_deeper(a, q);
        }
    }
}

/// Giving the directory `d` the scope `m` changes the scope of no directory
/// other than `d`, and keeps the stored directories apart.
pub proof fn lemma_scope_after_insert(
    data: Map<Seq<char>, Map<Seq<char>, Seq<char>>>,
    d: Seq<char>,
    m: Map<Seq<char>, Seq<char>>,
)
    requires
        dirs_apart(data),
    ensures
        dirs_apart(data.insert(stored_dir(data, d), m)),
        scope_at(data.insert(stored_dir(data, d), m), d) == m,
        forall|x: Seq<char>|
            !same_dir(x, d) ==> scope_at(data.insert(stored_dir(data, d), m), x) == scope_at(
                data,
                x,
            ),
{
    let t = stored_dir(data, d);
    let after = data.insert(t, m);
    let c = path_components(d);
    assert(path_components(t) == c);
    if has_dir(data, c) {
        assert(data.contains_key(t));
    }
    assert forall|a: Seq<char>, b: Seq<char>|
        after.contains_key(a) && after.contains_key(b) && same_dir(a, b) implies a == b by {
        if a != t && b == t || a == t && b != t {
            let o = if a == t { b } else { a };
            assert(data.contains_key(o) && path_components(o) == c);
        }
    }
    assert(dirs_apart(after));
    assert(after.contains_key(t) && path_components(t) == c);
    assert(has_dir(after, c));
    let k0 = dir_key(after, c);
    assert(after.contains_key(k0) && path_components(k0) == c);
    assert(same_dir(k0, t));
    assert(k0 == t);
    assert forall|x: Seq<char>| !same_dir(x, d) implies scope_at(after, x) == scope_at(data, x) by {
        let cx = path_components(x);
        if has_dir(after, cx) {
            let k1 = dir_key(after, cx);
            assert(k1 != t);
            assert(data.contains_key(k1) && path_components(k1) == cx);
            assert(has_dir(data, cx));
            let k2 = dir_key(data, cx);
            assert(data.contains_key(k2) && path_components(k2) == cx);
            assert(after.contains_key(k2));
            assert(same_dir(k1, k2));
            assert(k1 == k2);
            assert(after[k1] == data[k1]);
        }
        if has_dir(data, cx) {
            let k2 = dir_key(data, cx);
            assert(data.contains_key(k2) && path_components(k2) == cx);
            assert(after.contains_key(k2) && path_components(k2) == cx);
            assert(has_dir(after, cx));
        }
    }
}

/// A lookup from `e` reads only the scopes on the walk from `e` to the root,
/// so a change to the scope of a directory off that walk leaves it as it was.
pub proof fn lemma_lookup_off_walk(
    before: Map<Seq<char>, Map<Seq<char>, Seq<char>>>,
    after: Map<Seq<char>, Map<Seq<char>, Seq<char>>>,
    d: Seq<char>,
    e: Seq<char>,
    key: Seq<char>,
)
    requires
        !is_ancestor(d, e),
        forall|x: Seq<char>| !same_dir(x, d) ==> scope_at(before, x) == scope_at(after, x),
    ensures
        lookup(after, e, key) == lookup(before, e, key),
    decreases e.len(),
{
    assert(scope_at(before, e) == scope_at(after, e));
    if let Some(q) = parent_dir(e) {
        lemma_lookup_off_walk(before, after, d, q, key);
    }
}

/// Shadowing: where `r`, `p` and `d` each define `key`, with `p` above `d`
/// and `r` above `p`, each of them sees its own value.
pub proof fn lemma_shadowing(
    data: Map<Seq<char>, Map<Seq<char>, Seq<char>>>,
    r: Seq<char>,
    p: Seq<char>,
    d: Seq<char>,
    key: Seq<char>,
)
    requires
        is_ancestor(r, p),
        is_ancestor(p, d),
        scope_at(data, r).contains_key(key),
        scope_at(data, p).contains_key(key),
        scope_at(data, d).contains_key(key),
    ensures
        lookup(data, d, key) == Some(scope_at(data, d)[key]),
        lookup(data, p, key) == Some(scope_at(data, p)[key]),
        lookup(data, r, key) == Some(scope_at(data, r)[key]),
{
}

/// Fallthrough: where `r` alone defines `key`, every directory below `r`
/// sees the value of `r`.
pub proof fn lemma_fallthrough(
    data: Map<Seq<char>, Map<Seq<char>, Seq<char>>>,
    r: Seq<char>,
    d: Seq<char>,
    key: Seq<char>,
)
    requires
        is_ancestor(r, d),
        scope_at(data, r).contains_key(key),
        forall|x: Seq<char>| !same_dir(x, r) ==> !(#[trigger] scope_at(data, x)).contains_key(key),
    ensures
        lookup(data, d, key) == Some(scope_at(data, r)[key]),
    decreases d.len(),
{
    if same_dir(r, d) {
        assert(scope_at(data, d) == scope_at(data, r));
    } else {
        if let Some(q) = parent_dir(d) {
            lemma_fallthrough(data, r, q, key);
        }
    }
}

/// Removing a key at `d` uncovers what the parent of `d` sees of it: the
/// removal masks nothing above `d`.
pub proof fn lemma_remove_falls_through(
    data: Map<Seq<char>, Map<Seq<char>, Seq<char>>>,
    d: Seq<char>,
    key: Seq<char>,
)
    requires
        dirs_apart(data),
    ensures
        lookup(with_removed(data, d, key), d, key) == match parent_dir(d) {
            Some(q) => lookup(data, q, key),
            None => None,
        },
{
    let after = with_removed(data, d, key);
    if has_dir(data, path_components(d)) {
        lemma_scope_after_insert(data, d, scope_at(data, d).remove(key));
    }
    assert(!scope_at(after, d).contains_key(key));
    if let Some(q) = parent_dir(d) {
        if is_ancestor(d, q) {
            lemma_ancestor_not_deeper(d, q);
        }
        lemma_lookup_off_walk(data, after, d, q, key);
    }
}

/// Where `r` above `d` defines `key` as `v1`, `d` defines it too, and no other
/// directory does, removing `key` at `d` leaves `d` seeing `v1`.
pub proof fn lemma_remove_uncovers_ancestor(
    data: Map<Seq<char>, Map<Seq<char>, Seq<char>>>,
    r: Seq<char>,
    d: Seq<char>,
    key: Seq<char>,
)
    requires
        dirs_apart(data),
        !same_dir(r, d),
        is_ancestor(r, d),
        scope_at(data, r).contains_key(key),
        scope_at(data, d).contains_key(key),
        forall|x: Seq<char>|
            !same_dir(x, r) && !same_dir(x, d) ==> !(#[trigger] scope_at(data, x)).contains_key(
                key,
            ),
    ensures
        lookup(with_removed(data, d, key), d, key) == Some(scope_at(data, r)[key]),
{
    let after = with_removed(data, d, key);
    assert(has_dir(data, path_components(d)));
    lemma_scope_after_insert(data, d, scope_at(data, d).remove(key));
    assert forall|x: Seq<char>| !same_dir(x, r) implies !(#[trigger] scope_at(
        after,
        x,
    )).contains_key(key) by {
        if same_dir(x, d) {
            assert(scope_at(after, x) == scope_at(after, d));
        }
    }
    lemma_fallthrough(after, r, d, key);
}

/// Setting a key at `d` changes nothing seen from a directory `e` that `d`
/// is not on the walk of: a sibling, an ancestor, an unrelated directory.
pub proof fn lemma_set_is_local(
    data: Map<Seq<char>, Map<Seq<char>, Seq<char>>>,
    d: Seq<char>,
    e: Seq<char>,
    key: Seq<char>,
    value: Seq<char>,
    probe: Seq<char>,
)
    requires
        dirs_apart(data),
        !is_ancestor(d, e),
    ensures
        lookup(with_set(data, d, key, value), e, probe) == lookup(data, e, probe),
{
    lemma_scope_after_insert(data, d, scope_at(data, d).insert(key, value));
    lemma_lookup_off_walk(data, with_set(data, d, key, value), d, e, probe);
}

/// The merged view from `d` holds exactly the keys that a lookup from `d`
/// finds, each with the value that lookup returns.
pub proof fn lemma_merged_agrees_with_lookup(
    data: Map<Seq<char>, Map<Seq<char>, Seq<char>>>,
    d: Seq<char>,
)
    ensures
        forall|k: Seq<char>| #[trigger] merged(data, d).contains_key(k) <==> lookup(data, d, k) is Some,
        forall|k: Seq<char>| #[trigger] merged(data, d).contains_key(k) ==> lookup(data, d, k) == Some(merged(data, d)[k]),
    decreases d.len(),
{
    if let Some(q) = parent_dir(d) {
        lemma_merged_agrees_with_lookup(data, q);
    }
    assert forall|k: Seq<char>|
        (#[trigger] merged(data, d).contains_key(k) <==> lookup(data, d, k) is Some) && (
        merged(data, d).contains_key(k) ==> lookup(data, d, k) == Some(merged(data, d)[k])) by {
        if let Some(q) = parent_dir(d) {
            assert(merged(data, q).contains_key(k) <==> lookup(data, q, k) is Some);
        }
    }
}

/// The loaded store and the directory it is seen from.
pub struct Projector {
    config: Config,
    data: ScopeMap,
}

impl Projector {
    /// The store, by directory.
    pub closed spec fn data_view(&self) -> Map<Seq<char>, Map<Seq<char>, Seq<char>>> {
        self.data@
    }

    /// The directory the store is seen from.
    pub closed spec fn pwd_view(&self) -> Seq<char> {
        self.config.pwd@
    }

    /// The settings the projector was built with: operation, directory and
    /// store path.
    pub closed spec fn config_view(&self) -> Config {
        self.config
    }

    /// Sees `data` from the directory of `config`.
    pub fn new(config: Config, data: ScopeMap) -> (r: Projector)
        ensures
            r.data_view() == data@,
            dirs_apart(r.data_view()),
            r.config_view() == config,
            r.pwd_view() == config.pwd@,
    {
        proof {
            use_type_invariant(&data);
            data.lemma_wf_apart();
        }
        Projector { config, data }
    }

    /// Builds the projector from what was read from the store, starting from
    /// an empty store where nothing could be read.
    pub fn from_loaded(config: Config, loaded: Option<ScopeMap>) -> (r: Projector)
        ensures
            r.config_view() == config,
            r.pwd_view() == config.pwd@,
            dirs_apart(r.data_view()),
            r.data_view() == match loaded {
                Some(d) => d@,
                None => Map::empty(),
            },
    {
        let data = match loaded {
            Some(d) => d,
            None => ScopeMap::new(),
        };
        proof {
            use_type_invariant(&data);
            data.lemma_wf_apart();
        }
        Projector { config, data }
    }

    /// The settings the projector was built with.
    pub fn config(&self) -> (r: &Config)
        ensures
            *r == self.config_view(),
            r.pwd@ == self.pwd_view(),
    {
        &self.config
    }

    /// The store as it stands, to be saved.
    pub fn scope_map(&self) -> (r: &ScopeMap)
        ensures
            r@ == self.data_view(),
    {
        &self.data
    }

    /// The value of `key` at the nearest directory, from the current one up
    /// to the root, that defines it.
    pub fn get_value(&self, key: &str) -> (r: Option<&String>)
        ensures
            r is Some <==> lookup(self.data_view(), self.pwd_view(), key@) is Some,
            r matches Some(v) ==> lookup(self.data_view(), self.pwd_view(), key@) == Some(v@),
    {
        let k = key.to_owned();
        let mut curr = self.config.pwd.clone();
        loop
            invariant
                k@ == key@,
                lookup(self.data@, self.config.pwd@, key@) == lookup(self.data@, curr@, key@),
            decreases curr@.len(),
        {
            match self.data.scope(&curr) {
                Some(scope) => match scope.get(&k) {
                    Some(v) => {
                        return Some(v);
                    },
                    None => {},
                },
                None => {},
            }
            match parent_of(&curr) {
                Some(p) => {
                    curr = p;
                },
                None => {
                    return None;
                },
            }
        }
    }

    /// Every value seen from the current directory: for each key defined on
    /// the walk to the root, the value of the nearest directory defining it.
    pub fn get_value_all(&self) -> (r: Scope)
        ensures
            r@ == merged(self.data_view(), self.pwd_view()),
    {
        let ghost data = self.data@;
        let ghost pwd = self.config.pwd@;
        let mut out = Scope::new();
        let mut curr = self.config.pwd.clone();
        loop
            invariant
                data == self.data@,
                pwd == self.config.pwd@,
                merged(data, pwd) == merged(data, curr@).union_prefer_right(out@),
            decreases curr@.len(),
        {
            let ghost before = out@;
            match self.data.scope(&curr) {
                Some(scope) => {
                    let entries = scope.entries();
                    let ghost s = entries@.map_values(|e: (String, String)| (e.0@, e.1@));
                    let mut j: usize = 0;
                    while j < entries.len()
                        invariant
                            j <= entries@.len(),
                            s == entries@.map_values(|e: (String, String)| (e.0@, e.1@)),
                            keys_distinct(s),
                            out@ == pairs_map(s.take(j as int)).union_prefer_right(before),
                        decreases entries@.len() - j,
                    {
                        let k = &entries[j].0;
                        let v = &entries[j].1;
                        proof {
                            let t = s.take(j as int);
                            assert(s[j as int] == (k@, v@));
                            assert(keys_distinct(t));
                            assert forall|i: int| 0 <= i < t.len() implies t[i].0 != k@ by {
                                assert(t[i] == s[i]);
                            }
                            lemma_pairs_push(t, k@, v@);
                            assert(s.take(j + 1) =~= t.push((k@, v@)));
                        }
                        if out.get(k).is_none() {
                            out.insert(k.clone(), v.clone());
                        }
                        assert(out@ =~= pairs_map(s.take(j + 1)).union_prefer_right(before));
                        j = j + 1;
                    }
                    assert(s.take(j as int) =~= s);
                },
                None => {
                    assert(out@ =~= Map::empty().union_prefer_right(before));
                },
            }
            assert(out@ == scope_at(data, curr@).union_prefer_right(before));
            match parent_of(&curr) {
                Some(p) => {
                    assert(merged(data, pwd) =~= merged(data, p@).union_prefer_right(out@));
                    curr = p;
                },
                None => {
                    assert(merged(data, pwd) =~= out@);
                    return out;
                },
            }
        }
    }

    /// Sets `key` to `value` in the scope of the current directory alone,
    /// creating that scope if it has none.
    pub fn set_value(&mut self, key: String, value: String)
        ensures
            final(self).config_view() == old(self).config_view(),
            final(self).pwd_view() == old(self).pwd_view(),
            final(self).data_view() == with_set(
                old(self).data_view(),
                old(self).pwd_view(),
                key@,
                value@,
            ),
    {
        let dir = self.config.pwd.clone();
        self.data.set(dir, key, value);
    }

    /// Removes `key` from the scope of the current directory alone; the
    /// directories above keep theirs.
    pub fn remove_value(&mut self, key: String)
        ensures
            final(self).config_view() == old(self).config_view(),
            final(self).pwd_view() == old(self).pwd_view(),
            final(self).data_view() == with_removed(
                old(self).data_view(),
                old(self).pwd_view(),
                key@,
            ),
    {
        self.data.remove(&self.config.pwd, &key);
    }
}

} // verus!
