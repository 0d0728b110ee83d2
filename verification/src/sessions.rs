//! The table of running terminal sessions, keyed by session ID.
use vstd::prelude::*;
use vstd::utf8::encode_utf8;
use crate::session::{invalid_session_id_message, valid_session_id, validate_session_id};
use crate::text::string_of;

verus! {

/// What is known of a running session: the generation it was started with,
/// its shell, its working directory, its process ID, and the handle through
/// which it is driven.
pub struct SessionRecord<T> {
    pub generation: u64,
    pub shell: String,
    pub cwd: String,
    pub pid: Option<u32>,
    pub handle: T,
}

/// The error for a request to a session that does not run.
pub open spec fn not_running_message() -> Seq<char> {
    "Terminal session is not running"@
}

/// What the frontend is told of a session.
pub struct TerminalInfo {
    pub session_id: String,
    pub generation: u64,
    pub shell: String,
    pub cwd: String,
    pub pid: Option<u32>,
}

struct SessionEntry<T> {
    id: String,
    record: SessionRecord<T>,
}

/// The running sessions, at most one per session ID.
pub struct SessionTable<T> {
    entries: Vec<SessionEntry<T>>,
}

spec fn entry_ids<T>(es: Seq<SessionEntry<T>>) -> Seq<Seq<char>> {
    es.map_values(|e: SessionEntry<T>| e.id@)
}

spec fn entries_map<T>(es: Seq<SessionEntry<T>>) -> Map<Seq<char>, SessionRecord<T>> {
    Map::new(
        |k: Seq<char>| entry_ids(es).contains(k),
        |k: Seq<char>| es[choose|i: int| 0 <= i < es.len() && #[trigger] es[i].id@ == k].record,
    )
}

proof fn lemma_entries_map_at<T>(es: Seq<SessionEntry<T>>, i: int)
    requires
        entry_ids(es).no_duplicates(),
        0 <= i < es.len(),
    ensures
        entries_map(es).contains_key(es[i].id@),
        entries_map(es)[es[i].id@] == es[i].record,
{
    let ids = entry_ids(es);
    assert(ids[i] == es[i].id@);
    assert(ids.contains(es[i].id@));
    let j = choose|j: int| 0 <= j < es.len() && #[trigger] es[j].id@ == es[i].id@;
    assert(ids[j] == ids[i]);
}

proof fn lemma_entries_map_absent<T>(es: Seq<SessionEntry<T>>, k: Seq<char>)
    requires
        forall|i: int| 0 <= i < es.len() ==> #[trigger] es[i].id@ != k,
    ensures
        !entries_map(es).contains_key(k),
{
    let ids = entry_ids(es);
    if ids.contains(k) {
        let i = choose|i: int| 0 <= i < ids.len() && ids[i] == k;
        assert(es[i].id@ == k);
    }
}

proof fn lemma_entries_push<T>(es: Seq<SessionEntry<T>>, e: SessionEntry<T>)
    requires
        entry_ids(es).no_duplicates(),
        !entries_map(es).contains_key(e.id@),
    ensures
        entry_ids(es.push(e)).no_duplicates(),
        entries_map(es.push(e)) =~= entries_map(es).insert(e.id@, e.record),
{
    let ids = entry_ids(es);
    let nes = es.push(e);
    let nids = entry_ids(nes);
    assert(nids =~= ids.push(e.id@));
    assert forall|i: int| 0 <= i < es.len() implies #[trigger] es[i].id@ != e.id@ by {
        assert(ids[i] == es[i].id@);
        assert(ids.contains(es[i].id@));
    }
    assert(nids.no_duplicates()) by {
        assert forall|i: int, j: int|
            0 <= i < nids.len() && 0 <= j < nids.len() && i != j implies nids[i] != nids[j] by {
            if i < es.len() && j < es.len() {
                assert(ids[i] != ids[j]);
            } else if i < es.len() {
                assert(es[i].id@ != e.id@);
            } else {
                assert(es[j].id@ != e.id@);
            }
        }
    }
    let m = entries_map(nes);
    let m2 = entries_map(es).insert(e.id@, e.record);
    assert forall|k: Seq<char>| #[trigger] m.contains_key(k) <==> m2.contains_key(k) by {
        if nids.contains(k) {
            let i = choose|i: int| 0 <= i < nids.len() && nids[i] == k;
            if i < es.len() {
                assert(ids[i] == k);
            }
        }
        if entries_map(es).contains_key(k) {
            let i = choose|i: int| 0 <= i < ids.len() && ids[i] == k;
            assert(nids[i] == k);
        }
        if k == e.id@ {
            assert(nids[es.len() as int] == k);
        }
    }
    assert forall|k: Seq<char>| m.contains_key(k) implies #[trigger] m[k] == m2[k] by {
        let i = choose|i: int| 0 <= i < nids.len() && nids[i] == k;
        assert(nes[i].id@ == k);
        lemma_entries_map_at(nes, i);
        if i < es.len() {
            lemma_entries_map_at(es, i);
        }
    }
}

proof fn lemma_entries_remove<T>(es: Seq<SessionEntry<T>>, i: int)
    requires
        entry_ids(es).no_duplicates(),
        0 <= i < es.len(),
    ensures
        entry_ids(es.remove(i)).no_duplicates(),
        entries_map(es.remove(i)) =~= entries_map(es).remove(es[i].id@),
{
    let ids = entry_ids(es);
    let nes = es.remove(i);
    let nids = entry_ids(nes);
    assert(nids =~= ids.remove(i));
    assert forall|a: int| 0 <= a < nes.len() implies #[trigger] nes[a] == es[if a < i {
        a
    } else {
        a + 1
    }] by {}
    assert(nids.no_duplicates()) by {
        assert forall|a: int, b: int|
            0 <= a < nids.len() && 0 <= b < nids.len() && a != b implies nids[a] != nids[b] by {
            let a2 = if a < i {
                a
            } else {
                a + 1
            };
            let b2 = if b < i {
                b
            } else {
                b + 1
            };
            assert(nids[a] == ids[a2]);
            assert(nids[b] == ids[b2]);
        }
    }
    let m = entries_map(nes);
    let m2 = entries_map(es).remove(es[i].id@);
    assert forall|k: Seq<char>| #[trigger] m.contains_key(k) <==> m2.contains_key(k) by {
        if nids.contains(k) {
            let a = choose|a: int| 0 <= a < nids.len() && nids[a] == k;
            let a2 = if a < i {
                a
            } else {
                a + 1
            };
            assert(ids[a2] == k);
            assert(ids[a2] != ids[i]);
        }
        if m2.contains_key(k) {
            let a = choose|a: int| 0 <= a < ids.len() && ids[a] == k;
            assert(a != i);
            let a2 = if a < i {
                a
            } else {
                a - 1
            };
            assert(nids[a2] == k);
        }
    }
    assert forall|k: Seq<char>| m.contains_key(k) implies #[trigger] m[k] == m2[k] by {
        let a = choose|a: int| 0 <= a < nids.len() && nids[a] == k;
        let a2 = if a < i {
            a
        } else {
            a + 1
        };
        assert(nes[a].id@ == k);
        lemma_entries_map_at(nes, a);
        assert(es[a2].id@ == k);
        lemma_entries_map_at(es, a2);
    }
}

impl<T> View for SessionTable<T> {
    type V = Map<Seq<char>, SessionRecord<T>>;

    closed spec fn view(&self) -> Map<Seq<char>, SessionRecord<T>> {
        entries_map(self.entries@)
    }
}

impl<T> SessionTable<T> {
    #[verifier::type_invariant]
    closed spec fn ids_distinct(&self) -> bool {
        entry_ids(self.entries@).no_duplicates()
    }

    /// An empty table.
    pub fn new() -> (table: Self)
        ensures
            table@ == Map::<Seq<char>, SessionRecord<T>>::empty(),
    {
        let table = SessionTable { entries: Vec::new() };
        assert(table@ =~= Map::<Seq<char>, SessionRecord<T>>::empty());
        table
    }

    /// The position of the entry for `id`.
    fn position(&self, id: &String) -> (r: Option<usize>)
        ensures
            match r {
                Some(i) => i < self.entries@.len() && self.entries@[i as int].id@ == id@,
                None => forall|i: int|
                    0 <= i < self.entries@.len() ==> #[trigger] self.entries@[i].id@ != id@,
            },
    {
        let n = self.entries.len();
        let mut i: usize = 0;
        while i < n
            invariant
                n == self.entries@.len(),
                i <= n,
                forall|j: int| 0 <= j < i ==> #[trigger] self.entries@[j].id@ != id@,
            decreases n - i,
        {
            if self.entries[i].id == *id {
                return Some(i);
            }
            i = i + 1;
        }
        None
    }

    /// The number of running sessions.
    pub fn len(&self) -> (n: usize)
        ensures
            n == self@.dom().len(),
    {
        proof {
            use_type_invariant(self);
            let ids = entry_ids(self.entries@);
            ids.unique_seq_to_set();
            assert(self@.dom() =~= ids.to_set());
        }
        self.entries.len()
    }

    /// The record of the session with this ID, if one runs.
    pub fn get(&self, id: &String) -> (r: Option<&SessionRecord<T>>)
        ensures
            match r {
                Some(rec) => self@.contains_key(id@) && *rec == self@[id@],
                None => !self@.contains_key(id@),
            },
    {
        proof {
            use_type_invariant(self);
        }
        match self.position(id) {
            Some(i) => {
                proof {
                    lemma_entries_map_at(self.entries@, i as int);
                }
                Some(&self.entries[i].record)
            },
            None => {
                proof {
                    lemma_entries_map_absent(self.entries@, id@);
                }
                None
            },
        }
    }

    /// What the frontend is told of the session with this ID, if one runs.
    pub fn terminal_info(&self, id: &String) -> (r: Option<TerminalInfo>)
        ensures
            match r {
                Some(info) => self@.contains_key(id@) && info.session_id@ == id@ && info.generation
                    == self@[id@].generation && info.shell@ == self@[id@].shell@ && info.cwd@
                    == self@[id@].cwd@ && info.pid == self@[id@].pid,
                None => !self@.contains_key(id@),
            },
    {
        match self.get(id) {
            Some(rec) => Some(
                TerminalInfo {
                    session_id: id.clone(),
                    generation: rec.generation,
                    shell: rec.shell.clone(),
                    cwd: rec.cwd.clone(),
                    pid: rec.pid,
                },
            ),
            None => None,
        }
    }

    /// Takes out the entry at `i`.
    fn take_entry(&mut self, i: usize) -> (e: SessionEntry<T>)
        requires
            i < old(self).entries@.len(),
        ensures
            e == old(self).entries@[i as int],
            final(self)@ == old(self)@.remove(e.id@),
            old(self)@.contains_key(e.id@),
            old(self)@[e.id@] == e.record,
    {
        proof {
            use_type_invariant(&*self);
            lemma_entries_remove(self.entries@, i as int);
            lemma_entries_map_at(self.entries@, i as int);
        }
        let mut entries: Vec<SessionEntry<T>> = Vec::new();
        std::mem::swap(&mut entries, &mut self.entries);
        let e = entries.remove(i);
        self.entries = entries;
        e
    }

    /// Records a session under its ID; a session that ran under the same ID
    /// is replaced, and its record handed back.
    pub fn insert(&mut self, id: String, record: SessionRecord<T>) -> (previous: Option<
        SessionRecord<T>,
    >)
        ensures
            final(self)@ == old(self)@.insert(id@, record),
            match previous {
                Some(p) => old(self)@.contains_key(id@) && p == old(self)@[id@],
                None => !old(self)@.contains_key(id@),
            },
    {
        proof {
            use_type_invariant(&*self);
        }
        let previous = match self.position(&id) {
            Some(i) => {
                let e = self.take_entry(i);
                Some(e.record)
            },
            None => {
                proof {
                    lemma_entries_map_absent(self.entries@, id@);
                }
                None
            },
        };
        proof {
            use_type_invariant(&*self);
            lemma_entries_push(self.entries@, SessionEntry { id, record });
        }
        let mut entries: Vec<SessionEntry<T>> = Vec::new();
        std::mem::swap(&mut entries, &mut self.entries);
        entries.push(SessionEntry { id, record });
        self.entries = entries;
        proof {
            assert(old(self)@.remove(id@).insert(id@, record) =~= old(self)@.insert(id@, record));
        }
        previous
    }

    /// Takes the session with this ID out of the table, if one runs.
    pub fn remove(&mut self, id: &String) -> (removed: Option<SessionRecord<T>>)
        ensures
            final(self)@ == old(self)@.remove(id@),
            match removed {
                Some(r) => old(self)@.contains_key(id@) && r == old(self)@[id@],
                None => !old(self)@.contains_key(id@),
            },
    {
        proof {
            use_type_invariant(&*self);
        }
        match self.position(id) {
            Some(i) => {
                let e = self.take_entry(i);
                Some(e.record)
            },
            None => {
                proof {
                    lemma_entries_map_absent(self.entries@, id@);
                    assert(self@.remove(id@) =~= self@);
                }
                None
            },
        }
    }

    /// Takes the session with this ID out of the table only if it is the one
    /// started with `generation`; a session started later under the same ID
    /// stays. Says whether one was taken out.
    pub fn remove_if_generation(&mut self, id: &String, generation: u64) -> (removed: Option<
        SessionRecord<T>,
    >)
        ensures
            final(self)@ == after_exit(old(self)@, id@, generation),
            match removed {
                Some(r) => runs_generation(old(self)@, id@, generation) && r == old(self)@[id@],
                None => !runs_generation(old(self)@, id@, generation),
            },
    {
        proof {
            use_type_invariant(&*self);
        }
        match self.position(id) {
            Some(i) => {
                if self.entries[i].record.generation == generation {
                    let e = self.take_entry(i);
                    Some(e.record)
                } else {
                    proof {
                        lemma_entries_map_at(self.entries@, i as int);
                    }
                    None
                }
            },
            None => {
                proof {
                    lemma_entries_map_absent(self.entries@, id@);
                }
                None
            },
        }
    }

    /// The running session that a request names: refused when the ID is
    /// invalid, or when no session runs under it.
    pub fn running(&self, id: &String) -> (r: Result<&SessionRecord<T>, String>)
        ensures
            match r {
                Ok(rec) => valid_session_id(encode_utf8(id@)) && self@.contains_key(id@)
                    && *rec == self@[id@],
                Err(e) => if valid_session_id(encode_utf8(id@)) {
                    !self@.contains_key(id@) && e@ == not_running_message()
                } else {
                    e@ == invalid_session_id_message()
                },
            },
    {
        if let Err(e) = validate_session_id(id.as_str()) {
            return Err(e);
        }
        match self.get(id) {
            Some(rec) => Ok(rec),
            None => Err(string_of("Terminal session is not running")),
        }
    }

    /// Empties the table and hands back every session that ran.
    pub fn drain(&mut self) -> (sessions: Vec<SessionRecord<T>>)
        ensures
            final(self)@ == Map::<Seq<char>, SessionRecord<T>>::empty(),
            sessions@.len() == old(self)@.dom().len(),
            forall|k: Seq<char>| #[trigger]
                old(self)@.contains_key(k) ==> sessions@.contains(old(self)@[k]),
            forall|i: int|
                0 <= i < sessions@.len() ==> old(self)@.values().contains(#[trigger] sessions@[i]),
    {
        proof {
            use_type_invariant(&*self);
        }
        let ghost es = self.entries@;
        let ghost m = self@;
        let mut taken: Vec<SessionEntry<T>> = Vec::new();
        std::mem::swap(&mut taken, &mut self.entries);
        assert(self@ =~= Map::<Seq<char>, SessionRecord<T>>::empty());
        let mut sessions: Vec<SessionRecord<T>> = Vec::new();
        while taken.len() > 0
            invariant
                entry_ids(es).no_duplicates(),
                m == entries_map(es),
                sessions@.len() + taken@.len() == es.len(),
                taken@ =~= es.subrange(0, taken@.len() as int),
                forall|j: int|
                    0 <= j < sessions@.len() ==> #[trigger] sessions@[j] == es[es.len() - 1
                        - j].record,
            decreases taken@.len(),
        {
            let e = taken.pop().unwrap();
            sessions.push(e.record);
        }
        proof {
            let ids = entry_ids(es);
            ids.unique_seq_to_set();
            assert(m.dom() =~= ids.to_set());
            assert forall|k: Seq<char>| #[trigger] m.contains_key(k) implies sessions@.contains(
                m[k],
            ) by {
                let i = choose|i: int| 0 <= i < ids.len() && ids[i] == k;
                assert(es[i].id@ == k);
                lemma_entries_map_at(es, i);
                assert(sessions@[es.len() - 1 - i] == m[k]);
            }
            assert forall|j: int| 0 <= j < sessions@.len() implies m.values().contains(
                #[trigger] sessions@[j],
            ) by {
                lemma_entries_map_at(es, es.len() - 1 - j);
                let k = es[es.len() - 1 - j].id@;
                assert(m.contains_key(k) && m[k] == sessions@[j]);
            }
        }
        sessions
    }
}

/// Gives out the generations that tell apart the sessions started under one
/// ID: 1, 2, 3, and so on, each larger than every one given out before.
pub struct GenerationCounter {
    last: u64,
}

impl View for GenerationCounter {
    type V = u64;

    /// The last generation given out, 0 before the first.
    closed spec fn view(&self) -> u64 {
        self.last
    }
}

impl GenerationCounter {
    /// A counter that has given out nothing.
    pub fn new() -> (counter: Self)
        ensures
            counter@ == 0,
    {
        GenerationCounter { last: 0 }
    }

    /// The next generation, larger than every one given out before; `None`
    /// once all of `u64` has been given out.
    pub fn next(&mut self) -> (generation: Option<u64>)
        ensures
            match generation {
                Some(g) => old(self)@ < u64::MAX && g == old(self)@ + 1 && final(self)@ == g,
                None => old(self)@ == u64::MAX && final(self)@ == old(self)@,
            },
    {
        if self.last == u64::MAX {
            None
        } else {
            self.last = self.last + 1;
            Some(self.last)
        }
    }
}

/// Whether the session running under `id` is the one started with
/// `generation`.
pub open spec fn runs_generation<T>(
    table: Map<Seq<char>, SessionRecord<T>>,
    id: Seq<char>,
    generation: u64,
) -> bool {
    table.contains_key(id) && table[id].generation == generation
}

/// The table after the session started under `id` with `generation` has
/// exited: without that session if it is still the one running there,
/// unchanged otherwise.
pub open spec fn after_exit<T>(
    table: Map<Seq<char>, SessionRecord<T>>,
    id: Seq<char>,
    generation: u64,
) -> Map<Seq<char>, SessionRecord<T>> {
    if runs_generation(table, id, generation) {
        table.remove(id)
    } else {
        table
    }
}

/// A restart is never undone by the exit of the session it replaced. When
/// `older` runs under `id` and is replaced by `newer`, started later, the
/// exit of `older` leaves the table as it is, with `newer` running; the exit
/// of `newer` takes it out and leaves every other ID as it was. An exit
/// never touches the sessions under other IDs.
pub proof fn lemma_stale_exit_keeps_newer<T>(
    table: Map<Seq<char>, SessionRecord<T>>,
    id: Seq<char>,
    older: SessionRecord<T>,
    newer: SessionRecord<T>,
    other: Seq<char>,
)
    requires
        older.generation < newer.generation,
        other != id,
    ensures
        ({
            let restarted = table.insert(id, older).insert(id, newer);
            &&& after_exit(restarted, id, older.generation) == restarted
            &&& after_exit(restarted, id, older.generation)[id] == newer
            &&& after_exit(restarted, id, newer.generation) == table.remove(id)
        }),
        forall|g: u64|
            #![trigger after_exit(table, id, g)]
            (after_exit(table, id, g).contains_key(other) == table.contains_key(other))
                && (table.contains_key(other) ==> after_exit(table, id, g)[other] == table[other]),
{
    let restarted = table.insert(id, older).insert(id, newer);
    assert(restarted.remove(id) =~= table.remove(id));
}

} // verus!
