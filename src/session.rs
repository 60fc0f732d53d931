//! A registry of named incremental hashing sessions.
use vstd::prelude::*;
use vstd::string::*;
use crate::digest::{absorbed, format_digest, formatted, hasher_finalize, hasher_new, hasher_update, md5_of, Md5State};

verus! {

/// The registry after `start(id)`: a fresh session, replacing any earlier one
/// under the same id.
pub open spec fn after_start(m: Map<Seq<char>, Seq<u8>>, id: Seq<char>) -> Map<Seq<char>, Seq<u8>> {
    m.insert(id, Seq::empty())
}

/// The registry after `update(id, data)`: the session absorbs `data`; an
/// unknown id changes nothing.
pub open spec fn after_update(m: Map<Seq<char>, Seq<u8>>, id: Seq<char>, data: Seq<u8>) -> Map<
    Seq<char>,
    Seq<u8>,
> {
    if m.contains_key(id) {
        m.insert(id, m[id] + data)
    } else {
        m
    }
}

/// The registry after `finalize(id, ..)` or `cancel(id)`: the session is gone.
pub open spec fn after_end(m: Map<Seq<char>, Seq<u8>>, id: Seq<char>) -> Map<Seq<char>, Seq<u8>> {
    m.remove(id)
}

/// What `finalize(id, n)` returns: the session's digest as hex cut to `n`
/// characters, or the empty string for an unknown id.
pub open spec fn finalize_output(m: Map<Seq<char>, Seq<u8>>, id: Seq<char>, n: nat) -> Seq<char> {
    if m.contains_key(id) {
        formatted(md5_of(m[id]), n)
    } else {
        Seq::empty()
    }
}

/// One session: its id and its running state.
struct SessionEntry {
    id: String,
    state: Md5State,
}

/// Session ids map to at most one running state each.
pub struct SessionRegistry {
    entries: Vec<SessionEntry>,
}

/// No id occurs twice.
spec fn ids_unique(e: Seq<SessionEntry>) -> bool {
    forall|i: int, j: int|
        0 <= i < e.len() && 0 <= j < e.len() && i != j ==> (#[trigger] e[i]).id@ != (#[trigger] e[j]).id@
}

/// The sessions as a map from id to the bytes absorbed so far.
spec fn map_of(e: Seq<SessionEntry>) -> Map<Seq<char>, Seq<u8>> {
    Map::new(
        |k: Seq<char>| exists|i: int| 0 <= i < e.len() && (#[trigger] e[i]).id@ == k,
        |k: Seq<char>| absorbed(e[choose|i: int| 0 <= i < e.len() && (#[trigger] e[i]).id@ == k].state),
    )
}

proof fn lemma_map_at(e: Seq<SessionEntry>, i: int)
    requires
        ids_unique(e),
        0 <= i < e.len(),
    ensures
        map_of(e).contains_key(e[i].id@),
        map_of(e)[e[i].id@] == absorbed(e[i].state),
{
    let k = e[i].id@;
    assert(map_of(e).contains_key(k));
    let j = choose|j: int| 0 <= j < e.len() && (#[trigger] e[j]).id@ == k;
    assert(j == i);
}

proof fn lemma_push(e: Seq<SessionEntry>, x: SessionEntry)
    requires
        ids_unique(e),
        !map_of(e).contains_key(x.id@),
    ensures
        ids_unique(e.push(x)),
        map_of(e.push(x)) == map_of(e).insert(x.id@, absorbed(x.state)),
{
    let f = e.push(x);
    assert forall|i: int| 0 <= i < e.len() implies (#[trigger] e[i]).id@ != x.id@ by {
        if e[i].id@ == x.id@ {
            assert(map_of(e).contains_key(x.id@));
        }
    }
    assert(ids_unique(f)) by {
        assert forall|i: int, j: int|
            0 <= i < f.len() && 0 <= j < f.len() && i != j implies (#[trigger] f[i]).id@ != (
            #[trigger] f[j]).id@ by {
            if i < e.len() && j < e.len() {
                assert(f[i] == e[i] && f[j] == e[j]);
            } else if i < e.len() {
                assert(f[i] == e[i]);
            } else {
                assert(f[j] == e[j]);
            }
        }
    }
    assert forall|k: Seq<char>| #[trigger] map_of(f).contains_key(k) <==> map_of(e).insert(
        x.id@,
        absorbed(x.state),
    ).contains_key(k) by {
        if map_of(e).contains_key(k) {
            let j = choose|j: int| 0 <= j < e.len() && (#[trigger] e[j]).id@ == k;
            assert(f[j] == e[j]);
        }
        if map_of(f).contains_key(k) && k != x.id@ {
            let j = choose|j: int| 0 <= j < f.len() && (#[trigger] f[j]).id@ == k;
            assert(f[j] == e[j]);
        }
        if k == x.id@ {
            assert(f[e.len() as int] == x);
        }
    }
    assert forall|k: Seq<char>| #[trigger] map_of(f).contains_key(k) implies map_of(f)[k]
        == map_of(e).insert(x.id@, absorbed(x.state))[k] by {
        let j = choose|j: int| 0 <= j < f.len() && (#[trigger] f[j]).id@ == k;
        lemma_map_at(f, j);
        if j < e.len() {
            assert(f[j] == e[j]);
            lemma_map_at(e, j);
        }
    }
    assert(map_of(f) =~= map_of(e).insert(x.id@, absorbed(x.state)));
}

proof fn lemma_remove(e: Seq<SessionEntry>, i: int)
    requires
        ids_unique(e),
        0 <= i < e.len(),
    ensures
        ids_unique(e.remove(i)),
        map_of(e.remove(i)) == map_of(e).remove(e[i].id@),
{
    let f = e.remove(i);
    let key = e[i].id@;
    assert forall|j: int| 0 <= j < f.len() implies #[trigger] f[j] == if j < i {
        e[j]
    } else {
        e[j + 1]
    } by {}
    assert(ids_unique(f)) by {
        assert forall|a: int, b: int|
            0 <= a < f.len() && 0 <= b < f.len() && a != b implies (#[trigger] f[a]).id@ != (
            #[trigger] f[b]).id@ by {
            let a2 = if a < i { a } else { a + 1 };
            let b2 = if b < i { b } else { b + 1 };
            assert(f[a] == e[a2] && f[b] == e[b2]);
        }
    }
    assert forall|k: Seq<char>| #[trigger] map_of(f).contains_key(k) <==> map_of(e).remove(
        key,
    ).contains_key(k) by {
        if map_of(f).contains_key(k) {
            let j = choose|j: int| 0 <= j < f.len() && (#[trigger] f[j]).id@ == k;
            let j2 = if j < i { j } else { j + 1 };
            assert(f[j] == e[j2]);
        }
        if map_of(e).contains_key(k) && k != key {
            let j = choose|j: int| 0 <= j < e.len() && (#[trigger] e[j]).id@ == k;
            if j < i {
                assert(f[j] == e[j]);
            } else {
                assert(f[j - 1] == e[j]);
            }
        }
    }
    assert forall|k: Seq<char>| #[trigger] map_of(f).contains_key(k) implies map_of(f)[k]
        == map_of(e).remove(key)[k] by {
        let j = choose|j: int| 0 <= j < f.len() && (#[trigger] f[j]).id@ == k;
        let j2 = if j < i { j } else { j + 1 };
        assert(f[j] == e[j2]);
        lemma_map_at(f, j);
        lemma_map_at(e, j2);
    }
    assert(map_of(f) =~= map_of(e).remove(key));
}

impl View for SessionRegistry {
    type V = Map<Seq<char>, Seq<u8>>;

    closed spec fn view(&self) -> Map<Seq<char>, Seq<u8>> {
        map_of(self.entries@)
    }
}

impl SessionRegistry {
    /// The registry's invariant: no id twice.
    pub closed spec fn wf(&self) -> bool {
        ids_unique(self.entries@)
    }

    /// An empty registry.
    pub fn new() -> (r: SessionRegistry)
        ensures
            r.wf(),
            r@ == Map::<Seq<char>, Seq<u8>>::empty(),
    {
        let r = SessionRegistry { entries: Vec::new() };
        assert(r@ =~= Map::<Seq<char>, Seq<u8>>::empty());
        r
    }

    /// The position of the session named `id`, if there is one.
    fn find(&self, id: &String) -> (r: Option<usize>)
        requires
            self.wf(),
        ensures
            r matches Some(i) ==> i < self.entries@.len() && self.entries@[i as int].id@ == id@,
            r is None ==> !self@.contains_key(id@),
    {
        let mut i: usize = 0;
        while i < self.entries.len()
            invariant
                i <= self.entries@.len(),
                forall|j: int| 0 <= j < i ==> (#[trigger] self.entries@[j]).id@ != id@,
            decreases self.entries@.len() - i,
        {
            if self.entries[i].id == *id {
                return Some(i);
            }
            i = i + 1;
        }
        None
    }

    /// Whether a session named `id` is running.
    pub fn contains(&self, id: &str) -> (r: bool)
        requires
            self.wf(),
        ensures
            r == self@.contains_key(id@),
    {
        let key = String::from_str(id);
        match self.find(&key) {
            Some(i) => {
                proof {
                    lemma_map_at(self.entries@, i as int);
                }
                true
            },
            None => false,
        }
    }

    /// Starts a fresh session named `id`; one already running under that id
    /// is discarded.
    pub fn start(&mut self, id: &str)
        requires
            old(self).wf(),
        ensures
            final(self).wf(),
            final(self)@ == after_start(old(self)@, id@),
    {
        let key = String::from_str(id);
        if let Some(i) = self.find(&key) {
            proof {
                lemma_remove(self.entries@, i as int);
            }
            let _ = self.entries.remove(i);
        }
        let entry = SessionEntry { id: key, state: hasher_new() };
        proof {
            lemma_push(self.entries@, entry);
        }
        self.entries.push(entry);
        assert(self@ =~= after_start(old(self)@, id@));
    }

    /// Feeds `data` to the session named `id`; returns `false`, changing
    /// nothing, where there is no such session.
    pub fn update(&mut self, id: &str, data: &[u8]) -> (r: bool)
        requires
            old(self).wf(),
        ensures
            final(self).wf(),
            r == old(self)@.contains_key(id@),
            final(self)@ == after_update(old(self)@, id@, data@),
    {
        let key = String::from_str(id);
        match self.find(&key) {
            Some(i) => {
                proof {
                    lemma_map_at(self.entries@, i as int);
                    lemma_remove(self.entries@, i as int);
                }
                let mut entry = self.entries.remove(i);
                hasher_update(&mut entry.state, data);
                proof {
                    lemma_push(self.entries@, entry);
                }
                self.entries.push(entry);
                assert(self@ =~= after_update(old(self)@, id@, data@));
                true
            },
            None => false,
        }
    }

    /// Ends the session named `id` and returns its digest as hex cut to
    /// `length` characters; the empty string, changing nothing, where there is
    /// no such session.
    pub fn finalize(&mut self, id: &str, length: usize) -> (r: String)
        requires
            old(self).wf(),
        ensures
            final(self).wf(),
            r@ == finalize_output(old(self)@, id@, length as nat),
            final(self)@ == after_end(old(self)@, id@),
    {
        let key = String::from_str(id);
        match self.find(&key) {
            Some(i) => {
                proof {
                    lemma_map_at(self.entries@, i as int);
                    lemma_remove(self.entries@, i as int);
                }
                let entry = self.entries.remove(i);
                let d = hasher_finalize(entry.state);
                format_digest(d.as_slice(), length)
            },
            None => {
                assert(self@ =~= after_end(old(self)@, id@));
                String::new()
            },
        }
    }

    /// Ends the session named `id` without hashing; returns whether it was
    /// running.
    pub fn cancel(&mut self, id: &str) -> (r: bool)
        requires
            old(self).wf(),
        ensures
            final(self).wf(),
            r == old(self)@.contains_key(id@),
            final(self)@ == after_end(old(self)@, id@),
    {
        let key = String::from_str(id);
        match self.find(&key) {
            Some(i) => {
                proof {
                    lemma_map_at(self.entries@, i as int);
                    lemma_remove(self.entries@, i as int);
                }
                let _ = self.entries.remove(i);
                true
            },
            None => {
                assert(self@ =~= after_end(old(self)@, id@));
                false
            },
        }
    }
}

/// Starting a session, feeding it `x` and then `y`, and finalizing it gives
/// the digest of `x` followed by `y` in one piece, whatever the registry held
/// before.
pub proof fn lemma_session_concatenates(
    m: Map<Seq<char>, Seq<u8>>,
    id: Seq<char>,
    x: Seq<u8>,
    y: Seq<u8>,
    n: nat,
)
    ensures
        finalize_output(after_update(after_update(after_start(m, id), id, x), id, y), id, n)
            == formatted(md5_of(x + y), n),
{
    assert(Seq::<u8>::empty() + x + y =~= x + y);
}

/// On an id with no running session, `update`, `finalize` and `cancel`
/// leave the registry as it was, and `finalize` returns the empty string.
pub proof fn lemma_unknown_id_untouched(
    m: Map<Seq<char>, Seq<u8>>,
    id: Seq<char>,
    data: Seq<u8>,
    n: nat,
)
    requires
        !m.contains_key(id),
    ensures
        after_update(m, id, data) == m,
        after_end(m, id) == m,
        finalize_output(m, id, n) == Seq::<char>::empty(),
{
    assert(m.remove(id) =~= m);
}

/// Once a session has been finalized or cancelled, finalizing it again finds
/// nothing and returns the empty string.
pub proof fn lemma_ended_session_gone(m: Map<Seq<char>, Seq<u8>>, id: Seq<char>, n: nat)
    ensures
        !after_end(m, id).contains_key(id),
        finalize_output(after_end(m, id), id, n) == Seq::<char>::empty(),
{
}

} // verus!
