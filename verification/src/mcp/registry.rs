//! The per-process handle map shared by the task and loop engines: handles
//! keyed by agent instance hierarchy (AIH) and then by id. Ids are scoped per
//! AIH: an operation under one AIH never sees entries made under another.
use vstd::prelude::*;

use crate::mcp::common::{gen_id, id_for, well_formed_id};
use crate::text::{str_eq, string_views};

verus! {

/// The key of an entry: (AIH, id), as character sequences.
pub type EntryKey = (Seq<char>, Seq<char>);

/// One live entry.
pub struct Entry<H> {
    pub aih: String,
    pub id: String,
    pub handle: H,
}

impl<H> Entry<H> {
    pub open spec fn key(&self) -> EntryKey {
        (self.aih@, self.id@)
    }
}

/// The map that a sequence of entries stands for.
pub open spec fn entries_map<H>(s: Seq<Entry<H>>) -> Map<EntryKey, H>
    decreases s.len(),
{
    if s.len() == 0 {
        Map::empty()
    } else {
        entries_map(s.drop_last()).insert(s.last().key(), s.last().handle)
    }
}

/// No two entries share a key.
pub open spec fn distinct_keys<H>(s: Seq<Entry<H>>) -> bool {
    forall|i: int, j: int| 0 <= i < s.len() && 0 <= j < s.len() && i != j ==> (#[trigger] s[i]).key() != (#[trigger] s[j]).key()
}

proof fn lemma_entries_map_domain<H>(s: Seq<Entry<H>>, k: EntryKey)
    ensures
        entries_map(s).contains_key(k) <==> exists|i: int| 0 <= i < s.len() && (#[trigger] s[i]).key() == k,
    decreases s.len(),
{
    if s.len() > 0 {
        let t = s.drop_last();
        lemma_entries_map_domain(t, k);
        if entries_map(s).contains_key(k) {
            if s.last().key() != k {
                let i = choose|i: int| 0 <= i < t.len() && (#[trigger] t[i]).key() == k;
                assert(s[i] == t[i]);
            }
        }
        if exists|i: int| 0 <= i < s.len() && (#[trigger] s[i]).key() == k {
            let i = choose|i: int| 0 <= i < s.len() && (#[trigger] s[i]).key() == k;
            if i < s.len() - 1 {
                assert(t[i] == s[i]);
            }
        }
    }
}

proof fn lemma_entries_map_value<H>(s: Seq<Entry<H>>, i: int)
    requires
        distinct_keys(s),
        0 <= i < s.len(),
    ensures
        entries_map(s).contains_key(s[i].key()),
        entries_map(s)[s[i].key()] == s[i].handle,
    decreases s.len(),
{
    let t = s.drop_last();
    if i < s.len() - 1 {
        assert(t[i] == s[i]);
        assert(distinct_keys(t)) by {
            assert forall|a: int, b: int| 0 <= a < t.len() && 0 <= b < t.len() && a != b implies (#[trigger] t[a]).key() != (#[trigger] t[b]).key() by {
                assert(t[a] == s[a] && t[b] == s[b]);
            }
        }
        lemma_entries_map_value(t, i);
        assert(s[s.len() - 1].key() != s[i].key());
    }
}

proof fn lemma_entries_map_remove<H>(s: Seq<Entry<H>>, i: int)
    requires
        distinct_keys(s),
        0 <= i < s.len(),
    ensures
        entries_map(s.remove(i)) == entries_map(s).remove(s[i].key()),
        distinct_keys(s.remove(i)),
{
    let r = s.remove(i);
    let k = s[i].key();
    assert(distinct_keys(r)) by {
        assert forall|a: int, b: int| 0 <= a < r.len() && 0 <= b < r.len() && a != b implies (#[trigger] r[a]).key() != (#[trigger] r[b]).key() by {
            let sa = if a < i { a } else { a + 1 };
            let sb = if b < i { b } else { b + 1 };
            assert(r[a] == s[sa] && r[b] == s[sb]);
        }
    }
    assert forall|q: EntryKey| #[trigger] entries_map(r).contains_key(q) <==> entries_map(s).remove(k).contains_key(q) by {
        lemma_entries_map_domain(r, q);
        lemma_entries_map_domain(s, q);
        if exists|a: int| 0 <= a < s.len() && (#[trigger] s[a]).key() == q {
            let a = choose|a: int| 0 <= a < s.len() && (#[trigger] s[a]).key() == q;
            if a < i {
                assert(r[a] == s[a]);
            } else if a > i {
                assert(r[a - 1] == s[a]);
            }
        }
        if exists|a: int| 0 <= a < r.len() && (#[trigger] r[a]).key() == q {
            let a = choose|a: int| 0 <= a < r.len() && (#[trigger] r[a]).key() == q;
            if a < i {
                assert(r[a] == s[a]);
            } else {
                assert(r[a] == s[a + 1]);
            }
        }
    }
    assert forall|q: EntryKey| #[trigger] entries_map(r).contains_key(q) implies entries_map(r)[q] == entries_map(s)[q] by {
        lemma_entries_map_domain(r, q);
        let a = choose|a: int| 0 <= a < r.len() && (#[trigger] r[a]).key() == q;
        lemma_entries_map_value(r, a);
        if a < i {
            assert(r[a] == s[a]);
            lemma_entries_map_value(s, a);
        } else {
            assert(r[a] == s[a + 1]);
            lemma_entries_map_value(s, a + 1);
        }
    }
    assert(entries_map(r) =~= entries_map(s).remove(k));
}

/// Handles keyed by AIH and then by id.
pub struct AihRegistry<H> {
    entries: Vec<Entry<H>>,
}

impl<H> AihRegistry<H> {
    /// The registry's internal invariant: no key is stored twice.
    #[verifier::type_invariant]
    spec fn wf(&self) -> bool {
        distinct_keys(self.entries@)
    }

    /// An empty registry.
    pub fn new() -> (r: Self)
        ensures
            r@ == Map::<EntryKey, H>::empty(),
    {
        AihRegistry { entries: Vec::new() }
    }

    /// The position of the entry for (`aih`, `id`), if any.
    fn position(&self, aih: &str, id: &str) -> (r: Option<usize>)
        ensures
            r matches Some(i) ==> i < self.entries@.len() && self.entries@[i as int].key() == (aih@, id@),
            r is None ==> !self@.contains_key((aih@, id@)),
    {
        let mut i: usize = 0;
        while i < self.entries.len()
            invariant
                i <= self.entries@.len(),
                forall|k: int| 0 <= k < i ==> (#[trigger] self.entries@[k]).key() != (aih@, id@),
            decreases self.entries@.len() - i,
        {
            let e = &self.entries[i];
            if str_eq(e.aih.as_str(), aih) && str_eq(e.id.as_str(), id) {
                return Some(i);
            }
            i = i + 1;
        }
        proof {
            lemma_entries_map_domain(self.entries@, (aih@, id@));
        }
        None
    }

    /// Record `handle` under (`aih`, `id`), replacing any handle already there.
    pub fn insert(&mut self, aih: String, id: String, handle: H)
        ensures
            final(self)@ == old(self)@.insert((aih@, id@), handle),
    {
        proof {
            use_type_invariant(&*self);
        }
        let ghost key = (aih@, id@);
        let pos = self.position(aih.as_str(), id.as_str());
        let mut entries: Vec<Entry<H>> = Vec::new();
        std::mem::swap(&mut entries, &mut self.entries);
        match pos {
            Some(i) => {
                proof {
                    lemma_entries_map_remove(entries@, i as int);
                }
                let _ = entries.remove(i);
            },
            None => {},
        }
        let ghost before = entries@;
        assert(!entries_map(before).contains_key(key));
        let e = Entry { aih, id, handle };
        proof {
            let s = before.push(e);
            assert(s.drop_last() =~= before);
            assert(distinct_keys(s)) by {
                assert forall|a: int, b: int| 0 <= a < s.len() && 0 <= b < s.len() && a != b implies (#[trigger] s[a]).key() != (#[trigger] s[b]).key() by {
                    if a == s.len() - 1 {
                        lemma_entries_map_domain(before, key);
                        assert(s[b] == before[b]);
                    } else if b == s.len() - 1 {
                        lemma_entries_map_domain(before, key);
                        assert(s[a] == before[a]);
                    } else {
                        assert(s[a] == before[a] && s[b] == before[b]);
                    }
                }
            }
            assert(entries_map(s) =~= entries_map(before).insert(key, handle));
            assert(entries_map(s) =~= entries_map(old(self).entries@).insert(key, handle));
        }
        entries.push(e);
        self.entries = entries;
    }

    /// Remove the entry for (`aih`, `id`) and hand back its handle, claiming
    /// it. `None` if the AIH or id is unknown.
    pub fn take(&mut self, aih: &str, id: &str) -> (r: Option<H>)
        ensures
            old(self)@.contains_key((aih@, id@)) ==> r == Some(old(self)@[(aih@, id@)]),
            !old(self)@.contains_key((aih@, id@)) ==> r is None,
            final(self)@ == old(self)@.remove((aih@, id@)),
    {
        proof {
            use_type_invariant(&*self);
        }
        match self.position(aih, id) {
            Some(i) => {
                proof {
                    lemma_entries_map_value(self.entries@, i as int);
                    lemma_entries_map_remove(self.entries@, i as int);
                }
                let mut entries: Vec<Entry<H>> = Vec::new();
                std::mem::swap(&mut entries, &mut self.entries);
                let e = entries.remove(i);
                self.entries = entries;
                Some(e.handle)
            },
            None => {
                proof {
                    assert(self@.remove((aih@, id@)) =~= self@);
                }
                None
            },
        }
    }
}

impl<H> AihRegistry<H> {
    /// Record `handle` under `aih` with a freshly generated id, and return the
    /// id.
    pub fn register(&mut self, aih: String, handle: H) -> (id: String)
        ensures
            well_formed_id(id@),
            exists|n: u64| id@ == id_for(n),
            final(self)@ == old(self)@.insert((aih@, id@), handle),
    {
        let id = gen_id();
        let key = id.clone();
        self.insert(aih, key, handle);
        id
    }

    /// The handle stored under (`aih`, `id`), if any.
    pub fn get(&self, aih: &str, id: &str) -> (r: Option<&H>)
        ensures
            r is Some <==> self@.contains_key((aih@, id@)),
            r matches Some(h) ==> *h == self@[(aih@, id@)],
    {
        proof {
            use_type_invariant(self);
        }
        match self.position(aih, id) {
            Some(i) => {
                proof {
                    lemma_entries_map_value(self.entries@, i as int);
                }
                Some(&self.entries[i].handle)
            },
            None => None,
        }
    }

    /// The ids of the entries made under `aih`, each once.
    pub fn ids(&self, aih: &str) -> (r: Vec<String>)
        ensures
            string_views(r@).no_duplicates(),
            forall|id: Seq<char>| string_views(r@).contains(id) <==> self@.contains_key((aih@, id)),
    {
        proof {
            use_type_invariant(self);
        }
        let mut out: Vec<String> = Vec::new();
        let mut i: usize = 0;
        while i < self.entries.len()
            invariant
                distinct_keys(self.entries@),
                i <= self.entries@.len(),
                string_views(out@).no_duplicates(),
                forall|id: Seq<char>| string_views(out@).contains(id) <==> key_before(self.entries@, (aih@, id), i as int),
            decreases self.entries@.len() - i,
        {
            let e = &self.entries[i];
            proof {
                lemma_key_before_step(self.entries@, i as int);
            }
            if str_eq(e.aih.as_str(), aih) {
                let ghost before = out@;
                let id = e.id.clone();
                proof {
                    if string_views(before).contains(id@) {
                        let k = choose|k: int| 0 <= k < i && (#[trigger] self.entries@[k]).key() == (aih@, id@);
                        assert(self.entries@[k].key() == self.entries@[i as int].key());
                    }
                }
                out.push(id);
                proof {
                    assert(string_views(out@) =~= string_views(before).push(id@));
                    assert forall|x: Seq<char>| string_views(out@).contains(x) <==> key_before(self.entries@, (aih@, x), i + 1) by {
                        if string_views(out@).contains(x) && x != id@ {
                            let j = choose|j: int| 0 <= j < string_views(out@).len() && string_views(out@)[j] == x;
                            assert(string_views(before)[j] == x);
                        }
                        if x != id@ && string_views(before).contains(x) {
                            let j = choose|j: int| 0 <= j < string_views(before).len() && string_views(before)[j] == x;
                            assert(string_views(out@)[j] == x);
                        }
                        if x == id@ {
                            assert(string_views(out@)[string_views(out@).len() - 1] == x);
                        }
                    }
                }
            } else {
                proof {
                    assert(self.entries@[i as int].aih@ != aih@);
                }
            }
            i = i + 1;
        }
        proof {
            assert forall|id: Seq<char>| string_views(out@).contains(id) <==> self@.contains_key((aih@, id)) by {
                lemma_entries_map_domain(self.entries@, (aih@, id));
            }
        }
        out
    }
}

/// Some entry among the first `n` has key `k`.
pub open spec fn key_before<H>(s: Seq<Entry<H>>, k: EntryKey, n: int) -> bool {
    exists|j: int| 0 <= j < n && (#[trigger] s[j]).key() == k
}

proof fn lemma_key_before_step<H>(s: Seq<Entry<H>>, n: int)
    requires
        0 <= n < s.len(),
    ensures
        forall|k: EntryKey| key_before(s, k, n + 1) <==> (key_before(s, k, n) || s[n].key() == k),
{
    assert forall|k: EntryKey| key_before(s, k, n + 1) <==> (key_before(s, k, n) || s[n].key() == k) by {
        if key_before(s, k, n + 1) {
            let j = choose|j: int| 0 <= j < n + 1 && (#[trigger] s[j]).key() == k;
            if j < n {
                assert(key_before(s, k, n));
            }
        }
        if s[n].key() == k {
            assert(s[n].key() == k);
        }
    }
}

/// Claiming is final: once an entry has been taken, taking it again finds
/// nothing, and the registry is unchanged by that second attempt.
pub proof fn lemma_claim_is_final<H>(m: Map<EntryKey, H>, key: EntryKey)
    ensures
        !m.remove(key).contains_key(key),
        m.remove(key).remove(key) == m.remove(key),
{
    assert(m.remove(key).remove(key) =~= m.remove(key));
}

/// Ids are scoped per AIH: registering or claiming an entry leaves every
/// entry under another key, in particular under another AIH, as it was.
pub proof fn lemma_other_keys_untouched<H>(m: Map<EntryKey, H>, key: EntryKey, other: EntryKey, h: H)
    requires
        key != other,
    ensures
        m.insert(key, h).contains_key(other) == m.contains_key(other),
        m.remove(key).contains_key(other) == m.contains_key(other),
        m.contains_key(other) ==> m.insert(key, h)[other] == m[other] && m.remove(key)[other] == m[other],
{
}

/// A freshly registered entry is listed under its AIH and holds its handle.
pub proof fn lemma_registered_is_listed<H>(m: Map<EntryKey, H>, aih: Seq<char>, id: Seq<char>, h: H)
    ensures
        m.insert((aih, id), h).contains_key((aih, id)),
        m.insert((aih, id), h)[(aih, id)] == h,
{
}


impl<H> View for AihRegistry<H> {
    type V = Map<EntryKey, H>;

    closed spec fn view(&self) -> Map<EntryKey, H> {
        entries_map(self.entries@)
    }
}

} // verus!
