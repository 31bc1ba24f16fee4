use vstd::prelude::*;

use crate::path::{components_of, path_components, same_components, same_dir};

verus! {

/// The map that a list of pairs stands for, when no key occurs twice.
pub open spec fn pairs_map<W>(s: Seq<(Seq<char>, W)>) -> Map<Seq<char>, W> {
    Map::new(
        |k: Seq<char>| exists|i: int| 0 <= i < s.len() && s[i].0 == k,
        |k: Seq<char>| s[choose|i: int| 0 <= i < s.len() && s[i].0 == k].1,
    )
}

/// No key occurs twice in the list.
pub open spec fn keys_distinct<W>(s: Seq<(Seq<char>, W)>) -> bool {
    forall|i: int, j: int|
        0 <= i < s.len() && 0 <= j < s.len() && i != j ==> s[i].0 != s[j].0
}

pub(crate) proof fn lemma_pairs_at<W>(s: Seq<(Seq<char>, W)>, i: int)
    requires
        keys_distinct(s),
        0 <= i < s.len(),
    ensures
        pairs_map(s).contains_key(s[i].0),
        pairs_map(s)[s[i].0] == s[i].1,
{
    let k = s[i].0;
    assert(exists|j: int| 0 <= j < s.len() && s[j].0 == k);
    let j = choose|j: int| 0 <= j < s.len() && s[j].0 == k;
    assert(j == i);
}

pub(crate) proof fn lemma_pairs_update<W>(s: Seq<(Seq<char>, W)>, i: int, w: W)
    requires
        keys_distinct(s),
        0 <= i < s.len(),
    ensures
        keys_distinct(s.update(i, (s[i].0, w))),
        pairs_map(s.update(i, (s[i].0, w))) == pairs_map(s).insert(s[i].0, w),
{
    let t = s.update(i, (s[i].0, w));
    assert(keys_distinct(t));
    assert forall|k: Seq<char>| #[trigger] pairs_map(t).contains_key(k) == pairs_map(s).insert(
        s[i].0,
        w,
    ).contains_key(k) by {
        if pairs_map(t).contains_key(k) {
            let j = choose|j: int| 0 <= j < t.len() && t[j].0 == k;
            assert(s[j].0 == k);
        }
        if pairs_map(s).contains_key(k) {
            let j = choose|j: int| 0 <= j < s.len() && s[j].0 == k;
            assert(t[j].0 == k);
        }
    }
    assert forall|k: Seq<char>| #[trigger] pairs_map(t).contains_key(k) implies pairs_map(t)[k]
        == pairs_map(s).insert(s[i].0, w)[k] by {
        let j = choose|j: int| 0 <= j < t.len() && t[j].0 == k;
        lemma_pairs_at(t, j);
        if j != i {
            lemma_pairs_at(s, j);
        }
    }
    assert(pairs_map(t) =~= pairs_map(s).insert(s[i].0, w));
}

pub(crate) proof fn lemma_pairs_push<W>(s: Seq<(Seq<char>, W)>, k: Seq<char>, w: W)
    requires
        keys_distinct(s),
        forall|i: int| 0 <= i < s.len() ==> s[i].0 != k,
    ensures
        keys_distinct(s.push((k, w))),
        pairs_map(s.push((k, w))) == pairs_map(s).insert(k, w),
{
    let t = s.push((k, w));
    assert(keys_distinct(t));
    assert forall|x: Seq<char>| #[trigger] pairs_map(t).contains_key(x) == pairs_map(s).insert(
        k,
        w,
    ).contains_key(x) by {
        if pairs_map(t).contains_key(x) && x != k {
            let j = choose|j: int| 0 <= j < t.len() && t[j].0 == x;
            assert(s[j].0 == x);
        }
        if pairs_map(s).contains_key(x) {
            let j = choose|j: int| 0 <= j < s.len() && s[j].0 == x;
            assert(t[j].0 == x);
        }
        if x == k {
            assert(t[s.len() as int].0 == x);
        }
    }
    assert forall|x: Seq<char>| #[trigger] pairs_map(t).contains_key(x) implies pairs_map(t)[x]
        == pairs_map(s).insert(k, w)[x] by {
        let j = choose|j: int| 0 <= j < t.len() && t[j].0 == x;
        lemma_pairs_at(t, j);
        if j < s.len() {
            lemma_pairs_at(s, j);
        }
    }
    assert(pairs_map(t) =~= pairs_map(s).insert(k, w));
}

pub(crate) proof fn lemma_pairs_remove<W>(s: Seq<(Seq<char>, W)>, i: int)
    requires
        keys_distinct(s),
        0 <= i < s.len(),
    ensures
        keys_distinct(s.remove(i)),
        pairs_map(s.remove(i)) == pairs_map(s).remove(s[i].0),
{
    let t = s.remove(i);
    assert forall|a: int, b: int|
        0 <= a < t.len() && 0 <= b < t.len() && a != b implies t[a].0 != t[b].0 by {
        let a0 = if a < i { a } else { a + 1 };
        let b0 = if b < i { b } else { b + 1 };
        assert(t[a] == s[a0] && t[b] == s[b0]);
    }
    assert forall|x: Seq<char>| #[trigger] pairs_map(t).contains_key(x) == pairs_map(s).remove(
        s[i].0,
    ).contains_key(x) by {
        if pairs_map(t).contains_key(x) {
            let j = choose|j: int| 0 <= j < t.len() && t[j].0 == x;
            let j0 = if j < i { j } else { j + 1 };
            assert(s[j0].0 == x);
        }
        if pairs_map(s).contains_key(x) && x != s[i].0 {
            let j = choose|j: int| 0 <= j < s.len() && s[j].0 == x;
            let j1 = if j < i { j } else { j - 1 };
            assert(t[j1].0 == x);
        }
    }
    assert forall|x: Seq<char>| #[trigger] pairs_map(t).contains_key(x) implies pairs_map(t)[x]
        == pairs_map(s).remove(s[i].0)[x] by {
        let j = choose|j: int| 0 <= j < t.len() && t[j].0 == x;
        let j0 = if j < i { j } else { j + 1 };
        lemma_pairs_at(t, j);
        lemma_pairs_at(s, j0);
    }
    assert(pairs_map(t) =~= pairs_map(s).remove(s[i].0));
}

/// Finds the position of `key` among the keys of `entries`.
pub(crate) fn find_key<V>(entries: &Vec<(String, V)>, key: &String) -> (r: Option<usize>)
    ensures
        r matches Some(i) ==> i < entries@.len() && entries@[i as int].0@ == key@,
        r is None ==> forall|i: int| 0 <= i < entries@.len() ==> entries@[i].0@ != key@,
{
    let mut i: usize = 0;
    while i < entries.len()
        invariant
            i <= entries@.len(),
            forall|j: int| 0 <= j < i ==> entries@[j].0@ != key@,
        decreases entries@.len() - i,
    {
        if entries[i].0 == *key {
            return Some(i);
        }
        i = i + 1;
    }
    None
}

/// The key/value map of one directory: keys are unique, and setting a key
/// that is already there replaces its value.
pub struct Scope {
    entries: Vec<(String, String)>,
}

impl Scope {
    /// The entries, each viewed as a pair of character sequences.
    pub closed spec fn pairs(&self) -> Seq<(Seq<char>, Seq<char>)> {
        self.entries@.map_values(|e: (String, String)| (e.0@, e.1@))
    }

    #[verifier::type_invariant]
    spec fn inv(&self) -> bool {
        keys_distinct(self.pairs())
    }

    pub fn new() -> (r: Scope)
        ensures
            r@ == Map::<Seq<char>, Seq<char>>::empty(),
    {
        let r = Scope { entries: Vec::new() };
        assert(r@ =~= Map::<Seq<char>, Seq<char>>::empty());
        r
    }

    /// The value stored under `key`, if any.
    pub fn get(&self, key: &String) -> (r: Option<&String>)
        ensures
            r is Some <==> self@.contains_key(key@),
            r matches Some(v) ==> v@ == self@[key@],
    {
        proof {
            use_type_invariant(self);
        }
        match find_key(&self.entries, key) {
            Some(i) => {
                proof {
                    lemma_pairs_at(self.pairs(), i as int);
                }
                Some(&self.entries[i].1)
            },
            None => {
                assert(!self@.contains_key(key@)) by {
                    if self@.contains_key(key@) {
                        let j = choose|j: int|
                            0 <= j < self.pairs().len() && self.pairs()[j].0 == key@;
                        assert(self.entries@[j].0@ == key@);
                    }
                }
                None
            },
        }
    }

    /// Sets `key` to `value`, replacing the value that was there.
    pub fn insert(&mut self, key: String, value: String)
        ensures
            final(self)@ == old(self)@.insert(key@, value@),
    {
        proof {
            use_type_invariant(&*self);
        }
        let mut entries: Vec<(String, String)> = Vec::new();
        std::mem::swap(&mut entries, &mut self.entries);
        let ghost s = entries@.map_values(|e: (String, String)| (e.0@, e.1@));
        match find_key(&entries, &key) {
            Some(i) => {
                let ghost k = key@;
                let ghost v = value@;
                entries.set(i, (key, value));
                proof {
                    lemma_pairs_update(s, i as int, v);
                    assert(entries@.map_values(|e: (String, String)| (e.0@, e.1@)) =~= s.update(
                        i as int,
                        (s[i as int].0, v),
                    ));
                }
            },
            None => {
                let ghost k = key@;
                let ghost v = value@;
                entries.push((key, value));
                proof {
                    lemma_pairs_push(s, k, v);
                    assert(entries@.map_values(|e: (String, String)| (e.0@, e.1@)) =~= s.push(
                        (k, v),
                    ));
                }
            },
        }
        self.entries = entries;
    }

    /// Removes `key`, if it is there.
    pub fn remove(&mut self, key: &String)
        ensures
            final(self)@ == old(self)@.remove(key@),
    {
        proof {
            use_type_invariant(&*self);
        }
        let mut entries: Vec<(String, String)> = Vec::new();
        std::mem::swap(&mut entries, &mut self.entries);
        let ghost s = entries@.map_values(|e: (String, String)| (e.0@, e.1@));
        match find_key(&entries, key) {
            Some(i) => {
                entries.remove(i);
                proof {
                    lemma_pairs_remove(s, i as int);
                    assert(entries@.map_values(|e: (String, String)| (e.0@, e.1@)) =~= s.remove(
                        i as int,
                    ));
                }
            },
            None => {
                assert(pairs_map(s) =~= pairs_map(s).remove(key@)) by {
                    if pairs_map(s).contains_key(key@) {
                        let j = choose|j: int| 0 <= j < s.len() && s[j].0 == key@;
                        assert(entries@[j].0@ == key@);
                    }
                }
            },
        }
        self.entries = entries;
    }

    /// The entries as owned pairs, each key once.
    pub fn to_vec(&self) -> (r: Vec<(String, String)>)
        ensures
            keys_distinct(r@.map_values(|e: (String, String)| (e.0@, e.1@))),
            pairs_map(r@.map_values(|e: (String, String)| (e.0@, e.1@))) == self@,
    {
        proof {
            use_type_invariant(self);
        }
        let mut entries: Vec<(String, String)> = Vec::new();
        let mut j: usize = 0;
        while j < self.entries.len()
            invariant
                j <= self.entries@.len(),
                entries@.len() == j,
                forall|i: int|
                    0 <= i < j ==> entries@[i].0@ == self.entries@[i].0@ && entries@[i].1@
                        == self.entries@[i].1@,
            decreases self.entries@.len() - j,
        {
            let k = self.entries[j].0.clone();
            let v = self.entries[j].1.clone();
            entries.push((k, v));
            j = j + 1;
        }
        assert(entries@.map_values(|e: (String, String)| (e.0@, e.1@)) =~= self.pairs());
        entries
    }

    /// A copy of this scope.
    pub fn copy(&self) -> (r: Scope)
        ensures
            r@ == self@,
    {
        let entries = self.to_vec();
        Scope { entries }
    }

    /// The entries, in no particular order, each key once.
    pub fn entries(&self) -> (r: &Vec<(String, String)>)
        ensures
            keys_distinct(r@.map_values(|e: (String, String)| (e.0@, e.1@))),
            pairs_map(r@.map_values(|e: (String, String)| (e.0@, e.1@))) == self@,
    {
        proof {
            use_type_invariant(self);
        }
        &self.entries
    }
}

impl View for Scope {
    type V = Map<Seq<char>, Seq<char>>;

    closed spec fn view(&self) -> Map<Seq<char>, Seq<char>> {
        pairs_map(self.pairs())
    }
}

/// Some stored directory has the components `c`.
pub open spec fn has_dir<W>(data: Map<Seq<char>, W>, c: Seq<Seq<char>>) -> bool {
    exists|k: Seq<char>| data.contains_key(k) && path_components(k) == c
}

/// A stored directory with the components `c`.
pub open spec fn dir_key<W>(data: Map<Seq<char>, W>, c: Seq<Seq<char>>) -> Seq<char> {
    choose|k: Seq<char>| data.contains_key(k) && path_components(k) == c
}

/// The key under which the scope of `dir` is stored: the stored directory
/// that names the same one, kept as it was written, else `dir` itself.
pub open spec fn stored_dir<W>(data: Map<Seq<char>, W>, dir: Seq<char>) -> Seq<char> {
    if has_dir(data, path_components(dir)) {
        dir_key(data, path_components(dir))
    } else {
        dir
    }
}

/// The scope of `dir` in `data`; a directory without an entry has an empty scope.
pub open spec fn scope_at(
    data: Map<Seq<char>, Map<Seq<char>, Seq<char>>>,
    dir: Seq<char>,
) -> Map<Seq<char>, Seq<char>> {
    if has_dir(data, path_components(dir)) {
        data[dir_key(data, path_components(dir))]
    } else {
        Map::empty()
    }
}

/// No two stored directories name the same one.
pub open spec fn dirs_apart<W>(data: Map<Seq<char>, W>) -> bool {
    forall|a: Seq<char>, b: Seq<char>|
        data.contains_key(a) && data.contains_key(b) && same_dir(a, b) ==> a == b
}

/// No two directories of the list name the same one.
pub open spec fn pairs_apart<W>(s: Seq<(Seq<char>, W)>) -> bool {
    forall|i: int, j: int|
        0 <= i < s.len() && 0 <= j < s.len() && i != j ==> path_components(s[i].0)
            != path_components(s[j].0)
}

proof fn lemma_apart_view<W>(s: Seq<(Seq<char>, W)>)
    requires
        pairs_apart(s),
    ensures
        keys_distinct(s),
        dirs_apart(pairs_map(s)),
{
    assert forall|a: Seq<char>, b: Seq<char>|
        pairs_map(s).contains_key(a) && pairs_map(s).contains_key(b) && same_dir(a, b) implies a
        == b by {
        let i = choose|i: int| 0 <= i < s.len() && s[i].0 == a;
        let j = choose|j: int| 0 <= j < s.len() && s[j].0 == b;
        assert(i == j);
    }
}

proof fn lemma_dir_at<W>(s: Seq<(Seq<char>, W)>, i: int)
    requires
        pairs_apart(s),
        0 <= i < s.len(),
    ensures
        has_dir(pairs_map(s), path_components(s[i].0)),
        dir_key(pairs_map(s), path_components(s[i].0)) == s[i].0,
        stored_dir(pairs_map(s), s[i].0) == s[i].0,
        pairs_map(s)[s[i].0] == s[i].1,
{
    lemma_apart_view(s);
    lemma_pairs_at(s, i);
    assert(pairs_map(s).contains_key(s[i].0) && path_components(s[i].0) == path_components(s[i].0));
}

proof fn lemma_no_dir<W>(s: Seq<(Seq<char>, W)>, c: Seq<Seq<char>>)
    requires
        forall|i: int| 0 <= i < s.len() ==> path_components(s[i].0) != c,
    ensures
        !has_dir(pairs_map(s), c),
{
    if has_dir(pairs_map(s), c) {
        let k = choose|k: Seq<char>| pairs_map(s).contains_key(k) && path_components(k) == c;
        let i = choose|i: int| 0 <= i < s.len() && s[i].0 == k;
    }
}

/// Finds the stored directory that names the same one as `dir`.
fn find_dir(scopes: &Vec<(String, Scope)>, dir: &String) -> (r: Option<usize>)
    ensures
        r matches Some(i) ==> i < scopes@.len() && same_dir(scopes@[i as int].0@, dir@),
        r is None ==> forall|i: int| 0 <= i < scopes@.len() ==> !same_dir(scopes@[i].0@, dir@),
{
    let target = components_of(dir);
    let mut i: usize = 0;
    while i < scopes.len()
        invariant
            i <= scopes@.len(),
            target@.map_values(|c: String| c@) == path_components(dir@),
            forall|j: int| 0 <= j < i ==> !same_dir(scopes@[j].0@, dir@),
        decreases scopes@.len() - i,
    {
        let here = components_of(&scopes[i].0);
        if same_components(&here, &target) {
            return Some(i);
        }
        i = i + 1;
    }
    None
}

/// The map that a list of key/value pairs builds, a later pair for a key
/// replacing an earlier one.
pub open spec fn entries_map(e: Seq<(Seq<char>, Seq<char>)>) -> Map<Seq<char>, Seq<char>>
    decreases e.len(),
{
    if e.len() == 0 {
        Map::empty()
    } else {
        entries_map(e.drop_last()).insert(e.last().0, e.last().1)
    }
}

/// The store that a list of directories with their entries builds, a later
/// scope for a directory replacing an earlier one.
pub open spec fn listing_map(l: Seq<(Seq<char>, Seq<(Seq<char>, Seq<char>)>)>) -> Map<
    Seq<char>,
    Map<Seq<char>, Seq<char>>,
>
    decreases l.len(),
{
    if l.len() == 0 {
        Map::empty()
    } else {
        let m = listing_map(l.drop_last());
        m.insert(stored_dir(m, l.last().0), entries_map(l.last().1))
    }
}

/// A listing of directories with their entries, as character sequences.
pub open spec fn listing_view(l: Seq<(String, Vec<(String, String)>)>) -> Seq<
    (Seq<char>, Seq<(Seq<char>, Seq<char>)>),
> {
    l.map_values(
        |e: (String, Vec<(String, String)>)|
            (e.0@, e.1@.map_values(|p: (String, String)| (p.0@, p.1@))),
    )
}

proof fn lemma_entries_distinct(e: Seq<(Seq<char>, Seq<char>)>)
    requires
        keys_distinct(e),
    ensures
        entries_map(e) == pairs_map(e),
    decreases e.len(),
{
    if e.len() > 0 {
        let d = e.drop_last();
        assert(keys_distinct(d));
        lemma_entries_distinct(d);
        assert forall|i: int| 0 <= i < d.len() implies d[i].0 != e.last().0 by {
            assert(d[i] == e[i]);
        }
        lemma_pairs_push(d, e.last().0, e.last().1);
        assert(d.push(e.last()) =~= e);
    }
}

proof fn lemma_listing_apart(
    l: Seq<(Seq<char>, Seq<(Seq<char>, Seq<char>)>)>,
    s: Seq<(Seq<char>, Map<Seq<char>, Seq<char>>)>,
)
    requires
        pairs_apart(s),
        l.len() == s.len(),
        forall|i: int| 0 <= i < l.len() ==> l[i].0 == s[i].0 && entries_map(l[i].1) == s[i].1,
    ensures
        listing_map(l) == pairs_map(s),
    decreases l.len(),
{
    if l.len() > 0 {
        let n = l.len() - 1;
        let ld = l.drop_last();
        let sd = s.drop_last();
        assert(pairs_apart(sd));
        assert forall|i: int| 0 <= i < ld.len() implies ld[i].0 == sd[i].0 && entries_map(ld[i].1)
            == sd[i].1 by {
            assert(ld[i] == l[i] && sd[i] == s[i]);
        }
        lemma_listing_apart(ld, sd);
        assert forall|i: int| 0 <= i < sd.len() implies path_components(sd[i].0) != path_components(
            s[n].0,
        ) by {
            assert(sd[i] == s[i]);
        }
        lemma_no_dir(sd, path_components(s[n].0));
        lemma_apart_view(sd);
        lemma_pairs_push(sd, s[n].0, s[n].1);
        assert(sd.push(s[n]) =~= s);
    }
}

/// The scopes of all directories that have one, keyed by directory path as
/// it was written; two spellings of one directory share one scope.
pub struct ScopeMap {
    scopes: Vec<(String, Scope)>,
}

impl ScopeMap {
    /// The scopes, each viewed as a pair of a path and a map.
    pub closed spec fn pairs(&self) -> Seq<(Seq<char>, Map<Seq<char>, Seq<char>>)> {
        self.scopes@.map_values(|e: (String, Scope)| (e.0@, e.1@))
    }

    /// No two scopes belong to the same directory.
    #[verifier::type_invariant]
    pub closed spec fn wf(&self) -> bool {
        pairs_apart(self.pairs())
    }

    /// A well-formed store never holds two scopes of one directory.
    pub proof fn lemma_wf_apart(&self)
        requires
            self.wf(),
        ensures
            dirs_apart(self@),
    {
        lemma_apart_view(self.pairs());
    }

    pub fn new() -> (r: ScopeMap)
        ensures
            r@ == Map::<Seq<char>, Map<Seq<char>, Seq<char>>>::empty(),
    {
        let r = ScopeMap { scopes: Vec::new() };
        assert(r@ =~= Map::<Seq<char>, Map<Seq<char>, Seq<char>>>::empty());
        r
    }

    /// The scope of `dir`, if it has one.
    pub fn scope(&self, dir: &String) -> (r: Option<&Scope>)
        ensures
            r is Some <==> has_dir(self@, path_components(dir@)),
            r matches Some(sc) ==> sc@ == scope_at(self@, dir@),
    {
        proof {
            use_type_invariant(self);
        }
        match find_dir(&self.scopes, dir) {
            Some(i) => {
                proof {
                    lemma_dir_at(self.pairs(), i as int);
                }
                Some(&self.scopes[i].1)
            },
            None => {
                proof {
                    lemma_no_dir(self.pairs(), path_components(dir@));
                }
                None
            },
        }
    }

    /// Puts `scope` in the place of the scope `dir` names, or adds it under `dir`.
    pub fn insert_scope(&mut self, dir: String, scope: Scope)
        ensures
            final(self)@ == old(self)@.insert(stored_dir(old(self)@, dir@), scope@),
    {
        proof {
            use_type_invariant(&*self);
        }
        let mut scopes: Vec<(String, Scope)> = Vec::new();
        std::mem::swap(&mut scopes, &mut self.scopes);
        let ghost s = scopes@.map_values(|e: (String, Scope)| (e.0@, e.1@));
        let ghost d = dir@;
        let ghost m = scope@;
        proof {
            lemma_apart_view(s);
        }
        match find_dir(&scopes, &dir) {
            Some(i) => {
                proof {
                    lemma_dir_at(s, i as int);
                }
                let (name, _) = scopes.remove(i);
                scopes.insert(i, (name, scope));
                proof {
                    lemma_pairs_update(s, i as int, m);
                    assert(scopes@.map_values(|e: (String, Scope)| (e.0@, e.1@)) =~= s.update(
                        i as int,
                        (s[i as int].0, m),
                    ));
                }
            },
            None => {
                proof {
                    lemma_no_dir(s, path_components(d));
                    lemma_pairs_push(s, d, m);
                }
                scopes.push((dir, scope));
                assert(scopes@.map_values(|e: (String, Scope)| (e.0@, e.1@)) =~= s.push((d, m)));
            },
        }
        self.scopes = scopes;
    }

    /// Sets `key` to `value` in the scope of `dir`, creating that scope if it
    /// has none; no other scope changes.
    pub fn set(&mut self, dir: String, key: String, value: String)
        ensures
            final(self)@ == old(self)@.insert(
                stored_dir(old(self)@, dir@),
                scope_at(old(self)@, dir@).insert(key@, value@),
            ),
    {
        let mut scope = match self.scope(&dir) {
            Some(sc) => sc.copy(),
            None => Scope::new(),
        };
        scope.insert(key, value);
        self.insert_scope(dir, scope);
    }

    /// Removes `key` from the scope of `dir`, if both are there; no other
    /// scope changes.
    pub fn remove(&mut self, dir: &String, key: &String)
        ensures
            final(self)@ == if has_dir(old(self)@, path_components(dir@)) {
                old(self)@.insert(stored_dir(old(self)@, dir@), scope_at(old(self)@, dir@).remove(key@))
            } else {
                old(self)@
            },
    {
        let scope = match self.scope(dir) {
            Some(sc) => sc.copy(),
            None => {
                return;
            },
        };
        let mut scope = scope;
        scope.remove(key);
        self.insert_scope(dir.clone(), scope);
    }

    /// Builds the store from directories with their entries; a later pair
    /// for one directory, or for one key of it, replaces an earlier one.
    pub fn from_pairs(pairs: &Vec<(String, Vec<(String, String)>)>) -> (r: ScopeMap)
        ensures
            r@ == listing_map(listing_view(pairs@)),
    {
        let ghost lv = listing_view(pairs@);
        let mut r = ScopeMap::new();
        let mut j: usize = 0;
        while j < pairs.len()
            invariant
                j <= pairs@.len(),
                lv == listing_view(pairs@),
                r@ == listing_map(lv.take(j as int)),
            decreases pairs@.len() - j,
        {
            let entries = &pairs[j].1;
            let ghost ev = entries@.map_values(|p: (String, String)| (p.0@, p.1@));
            let mut scope = Scope::new();
            let mut k: usize = 0;
            while k < entries.len()
                invariant
                    k <= entries@.len(),
                    ev == entries@.map_values(|p: (String, String)| (p.0@, p.1@)),
                    scope@ == entries_map(ev.take(k as int)),
                decreases entries@.len() - k,
            {
                scope.insert(entries[k].0.clone(), entries[k].1.clone());
                assert(ev.take(k + 1).drop_last() =~= ev.take(k as int));
                k = k + 1;
            }
            assert(ev.take(k as int) =~= ev);
            assert(lv[j as int] == (pairs@[j as int].0@, ev));
            r.insert_scope(pairs[j].0.clone(), scope);
            assert(lv.take(j + 1).drop_last() =~= lv.take(j as int));
            j = j + 1;
        }
        assert(lv.take(j as int) =~= lv);
        r
    }

    /// Lists the store as directories with their entries, each directory and
    /// each key once; `from_pairs` builds the same store back from it.
    pub fn to_pairs(&self) -> (r: Vec<(String, Vec<(String, String)>)>)
        ensures
            listing_map(listing_view(r@)) == self@,
    {
        proof {
            use_type_invariant(self);
        }
        let mut out: Vec<(String, Vec<(String, String)>)> = Vec::new();
        let mut j: usize = 0;
        while j < self.scopes.len()
            invariant
                j <= self.scopes@.len(),
                out@.len() == j,
                forall|i: int|
                    0 <= i < j ==> (#[trigger] listing_view(out@)[i]).0 == self.pairs()[i].0
                        && entries_map(listing_view(out@)[i].1) == self.pairs()[i].1,
            decreases self.scopes@.len() - j,
        {
            let dir = self.scopes[j].0.clone();
            let entries = self.scopes[j].1.to_vec();
            proof {
                lemma_entries_distinct(entries@.map_values(|p: (String, String)| (p.0@, p.1@)));
            }
            let ghost before = out@;
            out.push((dir, entries));
            proof {
                assert forall|i: int| 0 <= i < j + 1 implies (#[trigger] listing_view(
                    out@,
                )[i]).0 == self.pairs()[i].0 && entries_map(listing_view(out@)[i].1)
                    == self.pairs()[i].1 by {
                    if i < j {
                        assert(out@[i] == before[i]);
                        assert(listing_view(out@)[i] == listing_view(before)[i]);
                    }
                }
            }
            j = j + 1;
        }
        proof {
            lemma_listing_apart(listing_view(out@), self.pairs());
        }
        out
    }

    /// The scopes, in no particular order, each directory once.
    pub fn scopes(&self) -> (r: &Vec<(String, Scope)>)
        ensures
            keys_distinct(r@.map_values(|e: (String, Scope)| (e.0@, e.1@))),
            pairs_apart(r@.map_values(|e: (String, Scope)| (e.0@, e.1@))),
            pairs_map(r@.map_values(|e: (String, Scope)| (e.0@, e.1@))) == self@,
    {
        proof {
            use_type_invariant(self);
            lemma_apart_view(self.pairs());
        }
        &self.scopes
    }
}

impl View for ScopeMap {
    type V = Map<Seq<char>, Map<Seq<char>, Seq<char>>>;

    closed spec fn view(&self) -> Map<Seq<char>, Map<Seq<char>, Seq<char>>> {
        pairs_map(self.pairs())
    }
}

} // verus!
