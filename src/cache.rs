use vstd::prelude::*;

verus! {

/// How many sources a cache holds unless told otherwise.
pub const DEFAULT_CAPACITY: usize = 20;

/// A cached source: its path and its text.
pub type Entry = (Seq<char>, Seq<char>);

/// No path is cached twice.
pub open spec fn paths_distinct(es: Seq<Entry>) -> bool {
    forall|i: int, j: int|
        0 <= i < es.len() && 0 <= j < es.len() && i != j ==> #[trigger] es[i].0 != #[trigger] es[j].0
}

/// The path `p` is cached.
pub open spec fn cached(es: Seq<Entry>, p: Seq<char>) -> bool {
    exists|i: int| 0 <= i < es.len() && #[trigger] es[i].0 == p
}

/// Where the path `p` is cached.
pub open spec fn slot(es: Seq<Entry>, p: Seq<char>) -> int {
    choose|i: int| 0 <= i < es.len() && #[trigger] es[i].0 == p
}

/// The entry at `i` becomes the most recently used.
pub open spec fn touched(es: Seq<Entry>, i: int) -> Seq<Entry> {
    es.remove(i).push(es[i])
}

/// The entries without the one for `p`.
pub open spec fn without(es: Seq<Entry>, p: Seq<char>) -> Seq<Entry> {
    if cached(es, p) {
        es.remove(slot(es, p))
    } else {
        es
    }
}

/// The entries after `t` is stored for `p` in a cache of capacity `cap`: any
/// older entry for `p` goes, the least recently used entry goes if the cache
/// is full, and the new entry becomes the most recently used. A cache of
/// capacity zero stores nothing.
pub open spec fn admitted(es: Seq<Entry>, p: Seq<char>, t: Seq<char>, cap: int) -> Seq<Entry> {
    if cap == 0 {
        es
    } else {
        let rest = without(es, p);
        if rest.len() >= cap {
            rest.drop_first().push((p, t))
        } else {
            rest.push((p, t))
        }
    }
}

/// In a cache without repeated paths, the slot of a cached path is where it
/// stands.
pub proof fn lemma_slot(es: Seq<Entry>, i: int)
    requires
        paths_distinct(es),
        0 <= i < es.len(),
    ensures
        cached(es, es[i].0),
        slot(es, es[i].0) == i,
{
    assert(es[i].0 == es[i].0);
    let k = slot(es, es[i].0);
    assert(es[k].0 == es[i].0);
}

/// Removing an entry keeps the paths distinct and drops exactly that path.
proof fn lemma_remove_distinct(es: Seq<Entry>, i: int)
    requires
        paths_distinct(es),
        0 <= i < es.len(),
    ensures
        paths_distinct(es.remove(i)),
        !cached(es.remove(i), es[i].0),
        forall|p: Seq<char>| p != es[i].0 ==> (cached(es.remove(i), p) <==> cached(es, p)),
{
    es.remove_ensures(i);
    let r = es.remove(i);
    assert forall|a: int, b: int|
        0 <= a < r.len() && 0 <= b < r.len() && a != b implies #[trigger] r[a].0 != #[trigger] r[b].0 by {
        let a2 = if a < i { a } else { a + 1 };
        let b2 = if b < i { b } else { b + 1 };
        assert(r[a] == es[a2] && r[b] == es[b2]);
    }
    if cached(r, es[i].0) {
        let k = choose|k: int| 0 <= k < r.len() && #[trigger] r[k].0 == es[i].0;
        let k2 = if k < i { k } else { k + 1 };
        assert(r[k] == es[k2]);
    }
    assert forall|p: Seq<char>| p != es[i].0 implies (cached(r, p) <==> cached(es, p)) by {
        if cached(r, p) {
            let k = choose|k: int| 0 <= k < r.len() && #[trigger] r[k].0 == p;
            let k2 = if k < i { k } else { k + 1 };
            assert(r[k] == es[k2]);
        }
        if cached(es, p) {
            let k = choose|k: int| 0 <= k < es.len() && #[trigger] es[k].0 == p;
            let k2 = if k < i { k } else { k - 1 };
            assert(r[k2] == es[k]);
        }
    }
}

/// Storing an entry keeps the paths distinct and the capacity respected,
/// and leaves the text stored for the path.
pub proof fn lemma_admitted(es: Seq<Entry>, p: Seq<char>, t: Seq<char>, cap: int)
    requires
        paths_distinct(es),
        es.len() <= cap,
    ensures
        paths_distinct(admitted(es, p, t, cap)),
        admitted(es, p, t, cap).len() <= cap,
        cap > 0 ==> admitted(es, p, t, cap).last() == (p, t),
{
    let rest = without(es, p);
    if cached(es, p) {
        let k = slot(es, p);
        lemma_remove_distinct(es, k);
    }
    assert(paths_distinct(rest) && !cached(rest, p));
    if cap > 0 {
        let kept = if rest.len() >= cap { rest.drop_first() } else { rest };
        assert(paths_distinct(kept)) by {
            assert forall|a: int, b: int|
                0 <= a < kept.len() && 0 <= b < kept.len() && a != b implies #[trigger] kept[a].0
                != #[trigger] kept[b].0 by {
                if rest.len() >= cap {
                    assert(kept[a] == rest[a + 1] && kept[b] == rest[b + 1]);
                }
            }
        }
        assert(!cached(kept, p)) by {
            if cached(kept, p) {
                let k = choose|k: int| 0 <= k < kept.len() && #[trigger] kept[k].0 == p;
                if rest.len() >= cap {
                    assert(kept[k] == rest[k + 1]);
                }
            }
        }
        let out = kept.push((p, t));
        assert forall|a: int, b: int|
            0 <= a < out.len() && 0 <= b < out.len() && a != b implies #[trigger] out[a].0
            != #[trigger] out[b].0 by {
            if a < kept.len() && b < kept.len() {
                assert(out[a] == kept[a] && out[b] == kept[b]);
            } else if a < kept.len() {
                assert(out[a] == kept[a]);
            } else {
                assert(out[b] == kept[b]);
            }
        }
        assert(out =~= admitted(es, p, t, cap));
    }
}

} // verus!

verus! {

/// Source texts by path, with room for a bounded number of them; when it
/// is full, storing a new one evicts the least recently used.
pub struct SourceCache {
    capacity: usize,
    /// Least recently used first.
    entries: Vec<(String, String)>,
}

impl SourceCache {
    /// The cached paths and texts, least recently used first.
    pub closed spec fn entries(&self) -> Seq<Entry> {
        self.entries@.map_values(|e: (String, String)| (e.0@, e.1@))
    }

    pub closed spec fn capacity(&self) -> nat {
        self.capacity as nat
    }

    pub open spec fn wf(&self) -> bool {
        &&& paths_distinct(self.entries())
        &&& self.entries().len() <= self.capacity()
    }

    /// An empty cache that holds up to `capacity` sources.
    pub fn new(capacity: usize) -> (r: SourceCache)
        ensures
            r.wf(),
            r.capacity() == capacity,
            r.entries() == Seq::<Entry>::empty(),
    {
        let r = SourceCache { capacity, entries: Vec::new() };
        assert(r.entries() =~= Seq::<Entry>::empty());
        r
    }

    /// How many sources are cached.
    pub fn len(&self) -> (r: usize)
        ensures
            r == self.entries().len(),
    {
        self.entries.len()
    }

    /// Where `path` is cached, if it is.
    fn find(&self, path: &String) -> (r: Option<usize>)
        requires
            self.wf(),
        ensures
            match r {
                Some(i) => i < self.entries().len() && cached(self.entries(), path@) && slot(
                    self.entries(),
                    path@,
                ) == i,
                None => !cached(self.entries(), path@),
            },
    {
        let mut i: usize = 0;
        while i < self.entries.len()
            invariant
                self.wf(),
                i <= self.entries@.len(),
                forall|k: int| 0 <= k < i ==> #[trigger] self.entries()[k].0 != path@,
            decreases self.entries.len() - i,
        {
            if self.entries[i].0 == *path {
                proof {
                    assert(self.entries()[i as int].0 == path@);
                    lemma_slot(self.entries(), i as int);
                }
                return Some(i);
            }
            assert(self.entries()[i as int].0 != path@);
            i = i + 1;
        }
        None
    }

    /// The text cached for `path`, which becomes the most recently used; `None`
    /// where `path` is not cached, and then the cache is unchanged.
    pub fn lookup(&mut self, path: &String) -> (r: Option<String>)
        requires
            old(self).wf(),
        ensures
            final(self).wf(),
            final(self).capacity() == old(self).capacity(),
            cached(old(self).entries(), path@) ==> {
                let i = slot(old(self).entries(), path@);
                &&& r is Some
                &&& r->Some_0@ == old(self).entries()[i].1
                &&& final(self).entries() == touched(old(self).entries(), i)
            },
            !cached(old(self).entries(), path@) ==> r is None && final(self).entries() == old(
                self,
            ).entries(),
    {
        match self.find(path) {
            Some(i) => {
                let ghost es = self.entries();
                let e = self.entries.remove(i);
                let text = e.1.clone();
                self.entries.push(e);
                proof {
                    assert(self.entries() =~= touched(es, i as int));
                    lemma_remove_distinct(es, i as int);
                    let t = touched(es, i as int);
                    let rm = es.remove(i as int);
                    assert forall|a: int, b: int|
                        0 <= a < t.len() && 0 <= b < t.len() && a != b implies #[trigger] t[a].0
                        != #[trigger] t[b].0 by {
                        if a < rm.len() && b < rm.len() {
                            assert(t[a] == rm[a] && t[b] == rm[b]);
                        } else if a < rm.len() {
                            assert(t[a] == rm[a]);
                            assert(rm[a].0 != es[i as int].0);
                        } else {
                            assert(t[b] == rm[b]);
                            assert(rm[b].0 != es[i as int].0);
                        }
                    }
                }
                let r = Some(text);
                assert(r->Some_0@ == es[i as int].1);
                r
            },
            None => None,
        }
    }

    /// Stores `text` for `path` as the most recently used entry, in place of
    /// any older entry for `path`, evicting the least recently used entry
    /// when the cache is full.
    pub fn insert(&mut self, path: String, text: String)
        requires
            old(self).wf(),
        ensures
            final(self).wf(),
            final(self).capacity() == old(self).capacity(),
            final(self).entries() == admitted(
                old(self).entries(),
                path@,
                text@,
                old(self).capacity() as int,
            ),
    {
        let ghost es = self.entries();
        proof {
            lemma_admitted(es, path@, text@, self.capacity as int);
        }
        if self.capacity == 0 {
            return;
        }
        if let Some(i) = self.find(&path) {
            self.entries.remove(i);
            assert(self.entries() =~= es.remove(i as int));
        }
        assert(self.entries() == without(es, path@));
        let ghost rest = self.entries();
        if self.entries.len() >= self.capacity {
            self.entries.remove(0);
            assert(self.entries() =~= rest.drop_first());
        }
        let ghost kept = self.entries();
        self.entries.push((path, text));
        assert(self.entries() =~= kept.push((path@, text@)));
    }

    /// The text of the source at `path`: from the cache where it is there,
    /// without calling `read`; otherwise what `read` gives, which is then
    /// stored as by `insert`. A failed read leaves the cache unchanged.
    pub fn load<F: Fn(&String) -> Result<String, String>>(&mut self, path: &String, read: F) -> (r:
        Result<String, String>)
        requires
            old(self).wf(),
            read.requires((path,)),
        ensures
            final(self).wf(),
            final(self).capacity() == old(self).capacity(),
            cached(old(self).entries(), path@) ==> {
                let i = slot(old(self).entries(), path@);
                &&& r is Ok
                &&& r->Ok_0@ == old(self).entries()[i].1
                &&& final(self).entries() == touched(old(self).entries(), i)
            },
            !cached(old(self).entries(), path@) ==> {
                &&& read.ensures((path,), r)
                &&& r is Ok ==> final(self).entries() == admitted(
                    old(self).entries(),
                    path@,
                    r->Ok_0@,
                    old(self).capacity() as int,
                )
                &&& r is Err ==> final(self).entries() == old(self).entries()
            },
    {
        if let Some(text) = self.lookup(path) {
            let r: Result<String, String> = Ok(text);
            assert(r->Ok_0@ == text@);
            return r;
        }
        let got = read(path);
        match got {
            Ok(text) => {
                let kept = text.clone();
                self.insert(path.clone(), kept);
                let r: Result<String, String> = Ok(text);
                assert(r->Ok_0@ == text@);
                r
            },
            Err(e) => Err(e),
        }
    }
}

} // verus!

verus! {

/// Once a text has been stored for a path in a cache with room for at
/// least one source, the path is cached with exactly that text, so the next
/// load of the path finds it there.
pub proof fn lemma_reload_hits(es: Seq<Entry>, p: Seq<char>, t: Seq<char>, cap: int)
    requires
        paths_distinct(es),
        es.len() <= cap,
        cap > 0,
    ensures
        cached(admitted(es, p, t, cap), p),
        admitted(es, p, t, cap)[slot(admitted(es, p, t, cap), p)] == (p, t),
{
    lemma_admitted(es, p, t, cap);
    let after = admitted(es, p, t, cap);
    lemma_slot(after, after.len() - 1);
}

} // verus!
