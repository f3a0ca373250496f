use vstd::prelude::*;

use crate::model::AppId;

verus! {

/// One entry of the local cache: an application and its launch path.
#[derive(Debug)]
pub struct LocalEntry {
    pub app_id: AppId,
    pub path: String,
}

/// The value of a list of entries: pairs of id and path.
pub open spec fn entry_views(s: Seq<LocalEntry>) -> Seq<(Seq<u8>, Seq<char>)> {
    s.map_values(|e: LocalEntry| (e.app_id@, e.path@))
}

/// No id occurs twice in the list.
pub open spec fn ids_unique(s: Seq<(Seq<u8>, Seq<char>)>) -> bool {
    forall|i: int, j: int| 0 <= i < s.len() && 0 <= j < s.len() && i != j ==> s[i].0 != s[j].0
}

/// Whether some pair of the list has this id.
pub open spec fn has_id(s: Seq<(Seq<u8>, Seq<char>)>, k: Seq<u8>) -> bool {
    exists|i: int| 0 <= i < s.len() && (#[trigger] s[i]).0 == k
}

/// The mapping that a list of pairs with distinct ids stands for.
pub open spec fn pairs_map(s: Seq<(Seq<u8>, Seq<char>)>) -> Map<Seq<u8>, Seq<char>> {
    Map::new(|k: Seq<u8>| has_id(s, k), |k: Seq<u8>| s[choose|i: int| 0 <= i < s.len() && s[i].0 == k].1)
}

/// The mapping built by inserting the pairs one after the other, a later
/// pair replacing an earlier one with the same id.
pub open spec fn fold_insert(s: Seq<(Seq<u8>, Seq<char>)>) -> Map<Seq<u8>, Seq<char>>
    decreases s.len(),
{
    if s.len() == 0 {
        Map::empty()
    } else {
        fold_insert(s.drop_last()).insert(s.last().0, s.last().1)
    }
}

/// The per-machine mapping from application id to launch path.
///
/// It is held as a list of entries with distinct ids: vstd specifies
/// `HashMap` only for keys that obey its key model (the primitive integer
/// types), and an id of 64 bytes is none of them.
pub struct LocalCache {
    entries: Vec<LocalEntry>,
}

impl View for LocalCache {
    type V = Map<Seq<u8>, Seq<char>>;

    closed spec fn view(&self) -> Map<Seq<u8>, Seq<char>> {
        pairs_map(entry_views(self.entries@))
    }
}

proof fn lemma_pairs_map_at(s: Seq<(Seq<u8>, Seq<char>)>, i: int)
    requires
        ids_unique(s),
        0 <= i < s.len(),
    ensures
        pairs_map(s).contains_key(s[i].0),
        pairs_map(s)[s[i].0] == s[i].1,
{
    let k = s[i].0;
    assert(has_id(s, k));
    let j = choose|j: int| 0 <= j < s.len() && s[j].0 == k;
    assert(j == i);
}

proof fn lemma_pairs_map_push(s: Seq<(Seq<u8>, Seq<char>)>, p: (Seq<u8>, Seq<char>))
    requires
        ids_unique(s),
        !has_id(s, p.0),
    ensures
        ids_unique(s.push(p)),
        pairs_map(s.push(p)) == pairs_map(s).insert(p.0, p.1),
{
    let t = s.push(p);
    assert(ids_unique(t)) by {
        assert forall|i: int, j: int| 0 <= i < t.len() && 0 <= j < t.len() && i != j implies t[i].0
            != t[j].0 by {
            if i < s.len() && j < s.len() {
            } else if i < s.len() {
                assert(s[i] == t[i]);
            } else {
                assert(s[j] == t[j]);
            }
        }
    }
    assert forall|k: Seq<u8>| #[trigger] has_id(t, k) == (has_id(s, k) || k == p.0) by {
        if has_id(s, k) {
            let i = choose|i: int| 0 <= i < s.len() && s[i].0 == k;
            assert(t[i] == s[i]);
        }
        if k == p.0 {
            assert(t[s.len() as int] == p);
        }
        if has_id(t, k) && k != p.0 {
            let i = choose|i: int| 0 <= i < t.len() && t[i].0 == k;
            assert(s[i] == t[i]);
        }
    }
    assert forall|k: Seq<u8>| #[trigger] pairs_map(t).contains_key(k) implies pairs_map(t)[k]
        == pairs_map(s).insert(p.0, p.1)[k] by {
        if k == p.0 {
            lemma_pairs_map_at(t, s.len() as int);
        } else {
            let i = choose|i: int| 0 <= i < t.len() && t[i].0 == k;
            lemma_pairs_map_at(t, i);
            assert(s[i] == t[i]);
            lemma_pairs_map_at(s, i);
        }
    }
    assert(pairs_map(t) =~= pairs_map(s).insert(p.0, p.1));
}

proof fn lemma_pairs_map_remove(s: Seq<(Seq<u8>, Seq<char>)>, i: int)
    requires
        ids_unique(s),
        0 <= i < s.len(),
    ensures
        ids_unique(s.remove(i)),
        pairs_map(s.remove(i)) == pairs_map(s).remove(s[i].0),
{
    let t = s.remove(i);
    let k0 = s[i].0;
    assert forall|a: int, b: int| 0 <= a < t.len() && 0 <= b < t.len() && a != b implies t[a].0
        != t[b].0 by {
        let sa = if a < i { a } else { a + 1 };
        let sb = if b < i { b } else { b + 1 };
        assert(t[a] == s[sa]);
        assert(t[b] == s[sb]);
    }
    assert forall|k: Seq<u8>| #[trigger] has_id(t, k) == (has_id(s, k) && k != k0) by {
        if has_id(t, k) {
            let a = choose|a: int| 0 <= a < t.len() && t[a].0 == k;
            let sa = if a < i { a } else { a + 1 };
            assert(t[a] == s[sa]);
        }
        if has_id(s, k) && k != k0 {
            let a = choose|a: int| 0 <= a < s.len() && s[a].0 == k;
            if a < i {
                assert(t[a] == s[a]);
            } else {
                assert(t[a - 1] == s[a]);
            }
        }
    }
    assert forall|k: Seq<u8>| #[trigger] pairs_map(t).contains_key(k) implies pairs_map(t)[k]
        == pairs_map(s)[k] by {
        let a = choose|a: int| 0 <= a < t.len() && t[a].0 == k;
        let sa = if a < i { a } else { a + 1 };
        assert(t[a] == s[sa]);
        lemma_pairs_map_at(t, a);
        lemma_pairs_map_at(s, sa);
    }
    assert(pairs_map(t) =~= pairs_map(s).remove(k0));
}

/// Inserting distinct ids one after the other gives the mapping they stand for.
proof fn lemma_fold_insert_unique(s: Seq<(Seq<u8>, Seq<char>)>)
    requires
        ids_unique(s),
    ensures
        fold_insert(s) == pairs_map(s),
    decreases s.len(),
{
    if s.len() > 0 {
        let d = s.drop_last();
        assert(ids_unique(d));
        lemma_fold_insert_unique(d);
        assert(!has_id(d, s.last().0)) by {
            if has_id(d, s.last().0) {
                let i = choose|i: int| 0 <= i < d.len() && d[i].0 == s.last().0;
                assert(s[i] == d[i]);
            }
        }
        lemma_pairs_map_push(d, s.last());
        assert(d.push(s.last()) =~= s);
    }
}

impl LocalCache {
    /// The cache holds each id at most once.
    pub closed spec fn wf(&self) -> bool {
        ids_unique(entry_views(self.entries@))
    }

    /// The entries in the order in which they are stored.
    pub closed spec fn entry_seq(&self) -> Seq<(Seq<u8>, Seq<char>)> {
        entry_views(self.entries@)
    }

    /// An empty cache.
    pub fn new() -> (r: LocalCache)
        ensures
            r.wf(),
            r@ == Map::<Seq<u8>, Seq<char>>::empty(),
    {
        let r = LocalCache { entries: Vec::new() };
        assert(r@ =~= Map::<Seq<u8>, Seq<char>>::empty());
        r
    }

    fn position(&self, app_id: &AppId) -> (r: Option<usize>)
        requires
            self.wf(),
        ensures
            match r {
                Some(i) => i < self.entries@.len() && self.entries@[i as int].app_id@ == app_id@,
                None => !self@.contains_key(app_id@),
            },
    {
        let ghost s = entry_views(self.entries@);
        let mut i: usize = 0;
        while i < self.entries.len()
            invariant
                s == entry_views(self.entries@),
                i <= self.entries@.len(),
                forall|k: int| 0 <= k < i ==> s[k].0 != app_id@,
            decreases self.entries@.len() - i,
        {
            if self.entries[i].app_id.same_as(app_id) {
                return Some(i);
            }
            i = i + 1;
        }
        None
    }

    /// Whether some registered application has the launch path `path`.
    pub fn has_path(&self, path: &String) -> (r: bool)
        requires
            self.wf(),
        ensures
            r == exists|k: Seq<u8>| self@.contains_key(k) && self@[k] == path@,
    {
        let ghost s = entry_views(self.entries@);
        let mut i: usize = 0;
        while i < self.entries.len()
            invariant
                s == entry_views(self.entries@),
                ids_unique(s),
                i <= self.entries@.len(),
                forall|k: int| 0 <= k < i ==> s[k].1 != path@,
            decreases self.entries@.len() - i,
        {
            if self.entries[i].path == *path {
                proof {
                    lemma_pairs_map_at(s, i as int);
                    assert(self@.contains_key(s[i as int].0) && self@[s[i as int].0] == path@);
                }
                return true;
            }
            i = i + 1;
        }
        proof {
            if exists|k: Seq<u8>| self@.contains_key(k) && self@[k] == path@ {
                let k = choose|k: Seq<u8>| self@.contains_key(k) && self@[k] == path@;
                let a = choose|a: int| 0 <= a < s.len() && s[a].0 == k;
                lemma_pairs_map_at(s, a);
            }
        }
        false
    }

    /// The launch path of `app_id`, if it is registered.
    pub fn get(&self, app_id: &AppId) -> (r: Option<&String>)
        requires
            self.wf(),
        ensures
            match r {
                Some(p) => self@.contains_key(app_id@) && self@[app_id@] == p@,
                None => !self@.contains_key(app_id@),
            },
    {
        match self.position(app_id) {
            Some(i) => {
                proof {
                    lemma_pairs_map_at(entry_views(self.entries@), i as int);
                }
                Some(&self.entries[i].path)
            },
            None => None,
        }
    }

    /// Sets the launch path of `app_id`.
    pub fn insert(&mut self, app_id: AppId, path: String)
        requires
            old(self).wf(),
        ensures
            final(self).wf(),
            final(self)@ == old(self)@.insert(app_id@, path@),
    {
        if let Some(i) = self.position(&app_id) {
            proof {
                lemma_pairs_map_remove(entry_views(self.entries@), i as int);
            }
            let _ = self.entries.remove(i);
            assert(entry_views(self.entries@) =~= entry_views(old(self).entries@).remove(i as int));
        }
        let ghost s = entry_views(self.entries@);
        let ghost p = (app_id@, path@);
        proof {
            if has_id(s, p.0) {
                let a = choose|a: int| 0 <= a < s.len() && s[a].0 == p.0;
                lemma_pairs_map_at(s, a);
            }
            lemma_pairs_map_push(s, p);
        }
        self.entries.push(LocalEntry { app_id, path });
        assert(entry_views(self.entries@) =~= s.push(p));
        assert(self@ =~= old(self)@.insert(p.0, p.1));
    }

    /// Forgets `app_id`.
    pub fn remove(&mut self, app_id: &AppId)
        requires
            old(self).wf(),
        ensures
            final(self).wf(),
            final(self)@ == old(self)@.remove(app_id@),
    {
        match self.position(app_id) {
            Some(i) => {
                proof {
                    lemma_pairs_map_remove(entry_views(self.entries@), i as int);
                }
                let _ = self.entries.remove(i);
                assert(entry_views(self.entries@) =~= entry_views(old(self).entries@).remove(i as int));
            },
            None => {
                assert(self@ =~= old(self)@.remove(app_id@));
            },
        }
    }

    /// Copies of the entries, for persisting.
    pub fn to_entries(&self) -> (r: Vec<LocalEntry>)
        requires
            self.wf(),
        ensures
            entry_views(r@) == self.entry_seq(),
    {
        let mut r: Vec<LocalEntry> = Vec::new();
        let mut i: usize = 0;
        while i < self.entries.len()
            invariant
                i <= self.entries@.len(),
                entry_views(r@) == entry_views(self.entries@).subrange(0, i as int),
            decreases self.entries@.len() - i,
        {
            let e = &self.entries[i];
            let ghost before = entry_views(r@);
            let copied = LocalEntry { app_id: e.app_id.copy(), path: e.path.clone() };
            assert(copied.path@ == e.path@);
            r.push(copied);
            assert(entry_views(r@) =~= before.push((e.app_id@, e.path@)));
            i = i + 1;
            assert(entry_views(r@) =~= entry_views(self.entries@).subrange(0, i as int));
        }
        assert(entry_views(self.entries@).subrange(0, i as int) =~= entry_views(self.entries@));
        r
    }

    /// The cache that holds the given entries, inserted in order.
    pub fn from_entries(entries: &Vec<LocalEntry>) -> (r: LocalCache)
        ensures
            r.wf(),
            r@ == fold_insert(entry_views(entries@)),
    {
        let ghost all = entry_views(entries@);
        let mut r = LocalCache::new();
        let mut i: usize = 0;
        while i < entries.len()
            invariant
                all == entry_views(entries@),
                i <= entries@.len(),
                r.wf(),
                r@ == fold_insert(all.subrange(0, i as int)),
            decreases entries@.len() - i,
        {
            let e = &entries[i];
            r.insert(e.app_id.copy(), e.path.clone());
            proof {
                let t = all.subrange(0, i + 1);
                assert(t.drop_last() =~= all.subrange(0, i as int));
                assert(t.last() == all[i as int]);
            }
            i = i + 1;
        }
        assert(all.subrange(0, i as int) =~= all);
        r
    }
}

/// Persisting and loading again gives back the same mapping: the entries
/// that `to_entries` hands out for a cache, inserted in order by
/// `from_entries`, map each id to the path that the cache held.
pub proof fn lemma_entries_round_trip(c: LocalCache, entries: Seq<LocalEntry>)
    requires
        c.wf(),
        entry_views(entries) == c.entry_seq(),
    ensures
        fold_insert(entry_views(entries)) == c@,
{
    lemma_fold_insert_unique(c.entry_seq());
}

} // verus!
