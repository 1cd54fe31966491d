//! The store: one file per book, modelled as a map from paths to texts.
//!
//! The real service keeps its books on disk; this module gives the store a
//! mathematical model — a `Map` from file paths to file contents — and an
//! in-memory store with exactly the adapter interface the service needs:
//! write, read, remove, each specified against the map. The save, load and
//! delete transitions of the service are spec functions over the map, and
//! the laws at the end relate them: a saved book loads back unchanged, a
//! second save under the same name wins, a deleted book is gone, and two
//! names that sanitize alike share one file.

use vstd::prelude::*;

use crate::codec::{spec_decode_book, spec_encode_book, lemma_decode_encode};
use crate::date::{date_valid, Date};
use crate::sanitize::{spec_sanitize, spec_storage_path};

verus! {

/// The map a list of path/contents entries denotes; a later entry for the
/// same path wins.
pub open spec fn entries_map(es: Seq<(String, String)>) -> Map<Seq<char>, Seq<char>>
    decreases es.len(),
{
    if es.len() == 0 {
        Map::empty()
    } else {
        entries_map(es.drop_last()).insert(es.last().0@, es.last().1@)
    }
}

/// An in-memory store of named files.
pub struct MemFs {
    entries: Vec<(String, String)>,
}

impl View for MemFs {
    type V = Map<Seq<char>, Seq<char>>;

    closed spec fn view(&self) -> Map<Seq<char>, Seq<char>> {
        entries_map(self.entries@)
    }
}

/// A path occurs in the map exactly when some entry holds it.
proof fn lemma_entries_map_contains(es: Seq<(String, String)>, k: Seq<char>)
    ensures
        entries_map(es).contains_key(k) <==> exists|i: int| 0 <= i < es.len() && es[i].0@ == k,
    decreases es.len(),
{
    if es.len() > 0 {
        let es0 = es.drop_last();
        lemma_entries_map_contains(es0, k);
        if es.last().0@ == k {
            assert(es[es.len() - 1].0@ == k);
        } else {
            if entries_map(es).contains_key(k) {
                let i = choose|i: int| 0 <= i < es0.len() && es0[i].0@ == k;
                assert(es[i].0@ == k);
            }
            if exists|i: int| 0 <= i < es.len() && es[i].0@ == k {
                let i = choose|i: int| 0 <= i < es.len() && es[i].0@ == k;
                assert(i < es0.len());
                assert(es0[i].0@ == k);
            }
        }
    }
}

/// With pairwise distinct paths, the entry holding a path gives its value.
proof fn lemma_entries_map_at(es: Seq<(String, String)>, i: int, k: Seq<char>)
    requires
        forall|x: int, y: int| 0 <= x < y < es.len() ==> es[x].0@ != es[y].0@,
        0 <= i < es.len(),
        es[i].0@ == k,
    ensures
        entries_map(es).contains_key(k),
        entries_map(es)[k] == es[i].1@,
    decreases es.len(),
{
    let es0 = es.drop_last();
    if i == es.len() - 1 {
    } else {
        assert(es.last().0@ != k);
        assert(forall|x: int, y: int| 0 <= x < y < es0.len() ==> es0[x].0@ != es0[y].0@);
        assert(es0[i].0@ == k);
        lemma_entries_map_at(es0, i, k);
    }
}

/// With pairwise distinct paths, removing the entry of a path removes
/// exactly that path from the map.
proof fn lemma_entries_map_remove(es: Seq<(String, String)>, i: int, k: Seq<char>)
    requires
        forall|x: int, y: int| 0 <= x < y < es.len() ==> es[x].0@ != es[y].0@,
        0 <= i < es.len(),
        es[i].0@ == k,
    ensures
        entries_map(es.remove(i)) == entries_map(es).remove(k),
    decreases es.len(),
{
    let es0 = es.drop_last();
    if i == es.len() - 1 {
        assert(es.remove(i) =~= es0);
        assert(forall|x: int| 0 <= x < es0.len() ==> es0[x].0@ != k);
        lemma_entries_map_contains(es0, k);
        assert(!entries_map(es0).contains_key(k));
        assert(entries_map(es).remove(k) =~= entries_map(es0));
    } else {
        assert(es.last().0@ != k);
        assert(forall|x: int, y: int| 0 <= x < y < es0.len() ==> es0[x].0@ != es0[y].0@);
        assert(es0[i].0@ == k);
        lemma_entries_map_remove(es0, i, k);
        assert(es.remove(i).drop_last() =~= es0.remove(i));
        assert(es.remove(i).last() == es.last());
        assert(es.remove(i).len() == es.len() - 1 > 0);
        assert(entries_map(es.remove(i)) == entries_map(es0.remove(i)).insert(
            es.last().0@,
            es.last().1@,
        ));
        assert(entries_map(es0).remove(k).insert(es.last().0@, es.last().1@)
            =~= entries_map(es0).insert(es.last().0@, es.last().1@).remove(k));
        assert(entries_map(es.remove(i)) == entries_map(es).remove(k));
    }
}

impl MemFs {
    /// The store keeps at most one entry per path.
    pub closed spec fn wf(self) -> bool {
        forall|x: int, y: int|
            0 <= x < y < self.entries@.len() ==> self.entries@[x].0@ != self.entries@[y].0@
    }

    /// An empty store.
    pub fn new() -> (r: MemFs)
        ensures
            r.wf(),
            r@ == Map::<Seq<char>, Seq<char>>::empty(),
    {
        let r = MemFs { entries: Vec::new() };
        proof {
            assert(r.entries@.len() == 0);
        }
        r
    }

    /// The contents of the file at `path`, if there is one.
    pub fn read(&self, path: &str) -> (r: Option<String>)
        requires
            self.wf(),
        ensures
            match r {
                Some(c) => self@.contains_key(path@) && c@ == self@[path@],
                None => !self@.contains_key(path@),
            },
    {
        let n = self.entries.len();
        let mut i: usize = 0;
        while i < n
            invariant
                self.wf(),
                n == self.entries@.len(),
                i <= n,
                forall|j: int| 0 <= j < i ==> self.entries@[j].0@ != path@,
            decreases n - i,
        {
            if crate::strutil::str_eq(self.entries[i].0.as_str(), path) {
                let c = self.entries[i].1.clone();
                proof {
                    lemma_entries_map_at(self.entries@, i as int, path@);
                }
                return Some(c);
            }
            i = i + 1;
        }
        proof {
            lemma_entries_map_contains(self.entries@, path@);
        }
        None
    }

    /// Remove the file at `path`; say whether there was one.
    pub fn remove(&mut self, path: &str) -> (r: bool)
        requires
            old(self).wf(),
        ensures
            final(self).wf(),
            r == old(self)@.contains_key(path@),
            final(self)@ == old(self)@.remove(path@),
    {
        let n = self.entries.len();
        let mut i: usize = 0;
        while i < n
            invariant
                self.wf(),
                self.entries@ == old(self).entries@,
                n == self.entries@.len(),
                i <= n,
                forall|j: int| 0 <= j < i ==> self.entries@[j].0@ != path@,
            decreases n - i,
        {
            if crate::strutil::str_eq(self.entries[i].0.as_str(), path) {
                proof {
                    lemma_entries_map_at(self.entries@, i as int, path@);
                    lemma_entries_map_remove(self.entries@, i as int, path@);
                }
                self.entries.remove(i);
                proof {
                    lemma_entries_map_contains(self.entries@, path@);
                    assert(!self@.contains_key(path@));
                }
                return true;
            }
            i = i + 1;
        }
        proof {
            lemma_entries_map_contains(self.entries@, path@);
            assert(!self@.contains_key(path@));
            assert(self@.remove(path@) =~= self@);
        }
        false
    }

    /// Write `contents` to the file at `path`, replacing any old file.
    pub fn write(&mut self, path: &str, contents: &str)
        requires
            old(self).wf(),
        ensures
            final(self).wf(),
            final(self)@ == old(self)@.insert(path@, contents@),
    {
        let ghost m0 = self@;
        let _ = self.remove(path);
        let ghost es = self.entries@;
        proof {
            lemma_entries_map_contains(es, path@);
            assert(!entries_map(es).contains_key(path@));
        }
        let entry = (path.to_owned(), contents.to_owned());
        self.entries.push(entry);
        proof {
            assert(self.entries@.drop_last() =~= es);
            assert(self.entries@.last().0@ == path@);
            assert(self.entries@.last().1@ == contents@);
            assert(self@ == entries_map(es).insert(path@, contents@));
            assert(m0.remove(path@).insert(path@, contents@) =~= m0.insert(path@, contents@));
        }
    }
}

/// The store after saving a book: its file holds the encoded book.
pub open spec fn store_save(
    m: Map<Seq<char>, Seq<char>>,
    n: Seq<char>,
    a: Seq<char>,
    d: Date,
) -> Map<Seq<char>, Seq<char>> {
    m.insert(spec_storage_path(n), spec_encode_book(n, a, d))
}

/// What loading a name from the store yields: the decoded book of its
/// file, or nothing where there is no file or the file does not decode.
pub open spec fn store_load(m: Map<Seq<char>, Seq<char>>, name: Seq<char>) -> Option<
    (Seq<char>, Seq<char>, Date),
> {
    if m.contains_key(spec_storage_path(name)) {
        spec_decode_book(m[spec_storage_path(name)])
    } else {
        None
    }
}

/// The store after deleting a name: its file is gone.
pub open spec fn store_delete(m: Map<Seq<char>, Seq<char>>, name: Seq<char>) -> Map<
    Seq<char>,
    Seq<char>,
> {
    m.remove(spec_storage_path(name))
}

/// Saving a book and loading its name returns the book unchanged, in all
/// three fields, from any starting store.
pub proof fn lemma_save_then_load(
    m: Map<Seq<char>, Seq<char>>,
    n: Seq<char>,
    a: Seq<char>,
    d: Date,
)
    requires
        date_valid(d),
    ensures
        store_load(store_save(m, n, a, d), n) == Some((n, a, d)),
{
    lemma_decode_encode(n, a, d);
}

/// Saving twice under one name keeps only the second book: a later load
/// returns the second save's fields, from any starting store.
pub proof fn lemma_save_overwrites(
    m: Map<Seq<char>, Seq<char>>,
    n: Seq<char>,
    a1: Seq<char>,
    d1: Date,
    a2: Seq<char>,
    d2: Date,
)
    requires
        date_valid(d2),
    ensures
        store_load(store_save(store_save(m, n, a1, d1), n, a2, d2), n) == Some((n, a2, d2)),
{
    lemma_save_then_load(store_save(m, n, a1, d1), n, a2, d2);
}

/// Deleting a name after saving it leaves nothing to load.
pub proof fn lemma_delete_removes(
    m: Map<Seq<char>, Seq<char>>,
    n: Seq<char>,
    a: Seq<char>,
    d: Date,
)
    ensures
        store_load(store_delete(store_save(m, n, a, d), n), n) == None::<
            (Seq<char>, Seq<char>, Date),
        >,
{
}

/// The names `"a b"` and `"a_b"` sanitize to the same token, so they share
/// one file: saving the second overwrites the first, and loading either
/// name afterwards returns the second book.
pub proof fn lemma_sanitize_collision(
    m: Map<Seq<char>, Seq<char>>,
    a1: Seq<char>,
    d1: Date,
    a2: Seq<char>,
    d2: Date,
)
    requires
        date_valid(d2),
    ensures
        spec_storage_path("a b"@) == spec_storage_path("a_b"@),
        store_load(store_save(store_save(m, "a b"@, a1, d1), "a_b"@, a2, d2), "a b"@) == Some(
            ("a_b"@, a2, d2),
        ),
        store_load(store_save(store_save(m, "a b"@, a1, d1), "a_b"@, a2, d2), "a_b"@) == Some(
            ("a_b"@, a2, d2),
        ),
{
    reveal_strlit("a b");
    reveal_strlit("a_b");
    assert(spec_sanitize("a b"@) =~= "a_b"@);
    assert(spec_sanitize("a_b"@) =~= "a_b"@);
    assert(spec_storage_path("a b"@) == spec_storage_path("a_b"@));
    lemma_save_then_load(store_save(m, "a b"@, a1, d1), "a_b"@, a2, d2);
}

} // verus!
