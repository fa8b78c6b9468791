//! The in-memory key space: entries with optional expiry, lookups that
//! honour expiry, and the record form used to save and load a snapshot.
use vstd::prelude::*;

verus! {

/// Why a snapshot could not be saved or loaded.
#[derive(Debug)]
pub enum StorageError {
    /// Writing the snapshot failed; the text says why.
    SaveUnsuccessful(String),
    /// The stored snapshot could not be turned back into a key space.
    Corrupt(String),
}

/// One stored entry. Times are milliseconds: `created_at` since the Unix
/// epoch, `expires_for` relative to `created_at`.
#[derive(Debug)]
pub struct CommandData {
    pub key: String,
    pub value: String,
    pub created_at: u64,
    pub expires_for: Option<u64>,
}

/// The mathematical content of an entry.
pub ghost struct EntryView {
    pub key: Seq<char>,
    pub value: Seq<char>,
    pub created_at: u64,
    pub expires_for: Option<u64>,
}

impl View for CommandData {
    type V = EntryView;

    open spec fn view(&self) -> EntryView {
        EntryView {
            key: self.key@,
            value: self.value@,
            created_at: self.created_at,
            expires_for: self.expires_for,
        }
    }
}

/// Whether an entry can still be read at time `now`: it has no expiry, or
/// less time than its expiry has passed since it was written. A clock that
/// reads earlier than the write counts as no time passed.
pub open spec fn is_live(e: EntryView, now: u64) -> bool {
    match e.expires_for {
        None => true,
        Some(ttl) => elapsed(e.created_at, now) < ttl,
    }
}

pub open spec fn elapsed(created_at: u64, now: u64) -> nat {
    if now >= created_at {
        (now - created_at) as nat
    } else {
        0
    }
}

/// The key space that a sequence of entries stands for; a later entry for a
/// key hides an earlier one.
pub open spec fn map_of(s: Seq<EntryView>) -> Map<Seq<char>, EntryView>
    decreases s.len(),
{
    if s.len() == 0 {
        Map::empty()
    } else {
        map_of(s.drop_last()).insert(s.last().key, s.last())
    }
}

/// Keys are non-empty and appear at most once.
pub open spec fn keys_valid(s: Seq<EntryView>) -> bool {
    &&& forall|i: int| 0 <= i < s.len() ==> #[trigger] s[i].key.len() > 0
    &&& forall|i: int, j: int|
        0 <= i < s.len() && 0 <= j < s.len() && i != j ==> #[trigger] s[i].key != #[trigger] s[j].key
}

/// The entry written for `key` by a put at time `now`.
pub open spec fn entry_of(key: Seq<char>, value: Seq<char>, expires_for: Option<u64>, now: u64) -> EntryView {
    EntryView { key, value, created_at: now, expires_for }
}

/// The key space after a put.
pub open spec fn put_spec(
    m: Map<Seq<char>, EntryView>,
    key: Seq<char>,
    value: Seq<char>,
    expires_for: Option<u64>,
    now: u64,
) -> Map<Seq<char>, EntryView> {
    m.insert(key, entry_of(key, value, expires_for, now))
}

/// What a read of `key` at time `now` returns: the value of a live entry,
/// or nothing.
pub open spec fn get_spec(m: Map<Seq<char>, EntryView>, key: Seq<char>, now: u64) -> Option<Seq<char>> {
    if m.contains_key(key) && is_live(m[key], now) {
        Some(m[key].value)
    } else {
        None
    }
}

proof fn lemma_map_of_dom(s: Seq<EntryView>, k: Seq<char>)
    ensures
        map_of(s).contains_key(k) <==> exists|i: int| 0 <= i < s.len() && #[trigger] s[i].key == k,
    decreases s.len(),
{
    if s.len() > 0 {
        lemma_map_of_dom(s.drop_last(), k);
        if map_of(s.drop_last()).contains_key(k) {
            let i = choose|i: int| 0 <= i < s.drop_last().len() && #[trigger] s.drop_last()[i].key == k;
            assert(s[i].key == k);
        }
        if exists|i: int| 0 <= i < s.len() && #[trigger] s[i].key == k {
            let i = choose|i: int| 0 <= i < s.len() && #[trigger] s[i].key == k;
            if i < s.len() - 1 {
                assert(s.drop_last()[i].key == k);
            }
        }
    }
}

proof fn lemma_map_of_index(s: Seq<EntryView>, i: int)
    requires
        keys_valid(s),
        0 <= i < s.len(),
    ensures
        map_of(s).contains_key(s[i].key),
        map_of(s)[s[i].key] == s[i],
    decreases s.len(),
{
    if i < s.len() - 1 {
        let t = s.drop_last();
        assert(t[i] == s[i]);
        assert(keys_valid(t)) by {
            assert forall|a: int, b: int|
                0 <= a < t.len() && 0 <= b < t.len() && a != b implies #[trigger] t[a].key != #[trigger] t[b].key by {
                assert(t[a] == s[a] && t[b] == s[b]);
            }
            assert forall|a: int| 0 <= a < t.len() implies #[trigger] t[a].key.len() > 0 by {
                assert(t[a] == s[a]);
            }
        }
        lemma_map_of_index(t, i);
        assert(s[i].key != s[s.len() - 1].key);
    }
}

proof fn lemma_map_of_update(s: Seq<EntryView>, i: int, e: EntryView)
    requires
        0 <= i < s.len(),
        keys_valid(s),
        e.key == s[i].key,
    ensures
        map_of(s.update(i, e)) == map_of(s).insert(e.key, e),
    decreases s.len(),
{
    let u = s.update(i, e);
    if i == s.len() - 1 {
        assert(u.drop_last() == s.drop_last());
        assert(map_of(s.drop_last()).insert(e.key, s.last()).insert(e.key, e) == map_of(s.drop_last()).insert(e.key, e));
    } else {
        let t = s.drop_last();
        assert(u.drop_last() == t.update(i, e));
        assert(keys_valid(t)) by {
            assert forall|a: int, b: int|
                0 <= a < t.len() && 0 <= b < t.len() && a != b implies #[trigger] t[a].key != #[trigger] t[b].key by {
                assert(t[a] == s[a] && t[b] == s[b]);
            }
            assert forall|a: int| 0 <= a < t.len() implies #[trigger] t[a].key.len() > 0 by {
                assert(t[a] == s[a]);
            }
        }
        lemma_map_of_update(t, i, e);
        assert(s.last().key != e.key);
        assert(u.last() == s.last());
        assert(map_of(u) == map_of(s).insert(e.key, e));
    }
}

/// The whole key space, held as entries with distinct, non-empty keys.
#[derive(Debug)]
pub struct StorageData {
    data: Vec<CommandData>,
}

impl StorageData {
    pub closed spec fn entries(&self) -> Seq<EntryView> {
        self.data@.map_values(|e: CommandData| e@)
    }

    pub open spec fn wf(&self) -> bool {
        keys_valid(self.entries())
    }

    pub open spec fn view(&self) -> Map<Seq<char>, EntryView> {
        map_of(self.entries())
    }

    /// An empty key space.
    pub fn new() -> (r: StorageData)
        ensures
            r.wf(),
            r@ == Map::<Seq<char>, EntryView>::empty(),
            r.entries().len() == 0,
    {
        let r = StorageData { data: Vec::new() };
        assert(r.entries() =~= Seq::<EntryView>::empty());
        r
    }

    /// The position of `key` among the entries, if it is held.
    fn find(&self, key: &str) -> (r: Option<usize>)
        requires
            self.wf(),
        ensures
            match r {
                None => !self@.contains_key(key@),
                Some(i) => i < self.data@.len() && self.data@[i as int].key@ == key@,
            },
    {
        let mut i: usize = 0;
        while i < self.data.len()
            invariant
                i <= self.data@.len(),
                forall|j: int| 0 <= j < i ==> #[trigger] self.data@[j].key@ != key@,
            decreases self.data@.len() - i,
        {
            if self.data[i].key == key.to_owned() {
                return Some(i);
            }
            i = i + 1;
        }
        proof {
            lemma_map_of_dom(self.entries(), key@);
            if self@.contains_key(key@) {
                let j = choose|j: int| 0 <= j < self.entries().len() && #[trigger] self.entries()[j].key == key@;
                assert(self.data@[j].key@ == key@);
            }
        }
        None
    }
}


impl CommandData {
    /// A field-by-field copy.
    pub fn duplicate(&self) -> (r: CommandData)
        ensures
            r@ == self@,
    {
        CommandData {
            key: self.key.clone(),
            value: self.value.clone(),
            created_at: self.created_at,
            expires_for: self.expires_for,
        }
    }
}

/// Creates or overwrites the entry for `key`, stamped with `now`.
pub fn add(store: &mut StorageData, key: &str, value: &str, expires_for: Option<u64>, now: u64)
    requires
        old(store).wf(),
        key@.len() > 0,
    ensures
        final(store).wf(),
        final(store)@ == put_spec(old(store)@, key@, value@, expires_for, now),
{
    let entry = CommandData {
        key: key.to_owned(),
        value: value.to_owned(),
        created_at: now,
        expires_for,
    };
    let ghost e = entry@;
    let ghost s0 = store.entries();
    match store.find(key) {
        Some(i) => {
            store.data.set(i, entry);
            proof {
                assert(store.entries() =~= s0.update(i as int, e));
                lemma_map_of_update(s0, i as int, e);
                assert forall|a: int, b: int|
                    0 <= a < store.entries().len() && 0 <= b < store.entries().len() && a != b
                    implies #[trigger] store.entries()[a].key != #[trigger] store.entries()[b].key by {
                    assert(s0[a].key == store.entries()[a].key);
                    assert(s0[b].key == store.entries()[b].key);
                }
            }
        },
        None => {
            store.data.push(entry);
            proof {
                assert(store.entries() =~= s0.push(e));
                assert(store.entries().drop_last() =~= s0);
                lemma_map_of_dom(s0, key@);
                assert forall|a: int, b: int|
                    0 <= a < store.entries().len() && 0 <= b < store.entries().len() && a != b
                    implies #[trigger] store.entries()[a].key != #[trigger] store.entries()[b].key by {
                    if a < s0.len() && b < s0.len() {
                        assert(s0[a] == store.entries()[a] && s0[b] == store.entries()[b]);
                    } else if a < s0.len() {
                        assert(s0[a] == store.entries()[a]);
                    } else if b < s0.len() {
                        assert(s0[b] == store.entries()[b]);
                    }
                }
            }
        },
    }
}

/// The entry held for `key`, expired or not.
pub fn get<'a>(store: &'a StorageData, key: &str) -> (r: Option<&'a CommandData>)
    requires
        store.wf(),
    ensures
        match r {
            None => !store@.contains_key(key@),
            Some(e) => store@.contains_key(key@) && store@[key@] == e@,
        },
{
    match store.find(key) {
        Some(i) => {
            proof {
                assert(store.entries()[i as int] == store.data@[i as int]@);
                lemma_map_of_index(store.entries(), i as int);
            }
            Some(&store.data[i])
        },
        None => None,
    }
}

/// Passes an entry on while it is live at time `now`.
pub fn filter_expired(data: &CommandData, now: u64) -> (r: Option<&CommandData>)
    ensures
        r == (if is_live(data@, now) { Some(data) } else { None::<&CommandData> }),
{
    match data.expires_for {
        None => Some(data),
        Some(ttl) => {
            let passed: u64 = if now >= data.created_at { now - data.created_at } else { 0 };
            if passed < ttl {
                Some(data)
            } else {
                None
            }
        },
    }
}

/// Reads `key` at time `now`: a copy of its value if a live entry holds it.
pub fn read_live(store: &StorageData, key: &str, now: u64) -> (r: Option<String>)
    requires
        store.wf(),
    ensures
        match r {
            None => get_spec(store@, key@, now) is None,
            Some(v) => get_spec(store@, key@, now) == Some(v@),
        },
{
    match get(store, key) {
        Some(cd) => match filter_expired(cd, now) {
            Some(live) => Some(live.value.clone()),
            None => None,
        },
        None => None,
    }
}

/// A saved snapshot: one record per key, the key beside its entry.
pub open spec fn records_view(r: Seq<(String, CommandData)>) -> Seq<(Seq<char>, EntryView)> {
    r.map_values(|p: (String, CommandData)| (p.0@, p.1@))
}

/// Whether a list of records forms a valid key space: each record's key is
/// its entry's key, and the keys are non-empty and distinct.
pub open spec fn records_valid(r: Seq<(Seq<char>, EntryView)>) -> bool {
    &&& forall|i: int| 0 <= i < r.len() ==> #[trigger] r[i].0 == r[i].1.key
    &&& keys_valid(r.map_values(|p: (Seq<char>, EntryView)| p.1))
}

/// The key space a valid list of records loads into, or nothing for an invalid one.
pub open spec fn load_spec(r: Seq<(Seq<char>, EntryView)>) -> Option<Map<Seq<char>, EntryView>> {
    if records_valid(r) {
        Some(map_of(r.map_values(|p: (Seq<char>, EntryView)| p.1)))
    } else {
        None
    }
}

/// The records that a key space is saved as.
pub open spec fn snapshot_spec(s: Seq<EntryView>) -> Seq<(Seq<char>, EntryView)> {
    s.map_values(|e: EntryView| (e.key, e))
}

impl StorageData {
    /// The snapshot to save: each entry with its key.
    pub fn snapshot(&self) -> (r: Vec<(String, CommandData)>)
        requires
            self.wf(),
        ensures
            records_view(r@) == snapshot_spec(self.entries()),
            load_spec(records_view(r@)) == Some(self@),
    {
        let mut r: Vec<(String, CommandData)> = Vec::new();
        let mut i: usize = 0;
        while i < self.data.len()
            invariant
                i <= self.data@.len(),
                records_view(r@) == snapshot_spec(self.entries()).subrange(0, i as int),
            decreases self.data@.len() - i,
        {
            let e = self.data[i].duplicate();
            let k = self.data[i].key.clone();
            let ghost r0 = r@;
            r.push((k, e));
            proof {
                assert(self.entries()[i as int] == self.data@[i as int]@);
                assert(records_view(r@) =~= records_view(r0).push((k@, e@)));
                assert(records_view(r@) =~= snapshot_spec(self.entries()).subrange(0, i + 1));
            }
            i = i + 1;
        }
        proof {
            assert(records_view(r@) =~= snapshot_spec(self.entries()));
            lemma_round_trip(self.entries());
        }
        r
    }

    /// Rebuilds a key space from saved records; records whose keys disagree,
    /// are empty or repeat mean the snapshot is corrupt.
    pub fn from_records(records: Vec<(String, CommandData)>) -> (r: Result<StorageData, StorageError>)
        ensures
            match r {
                Ok(s) => s.wf() && load_spec(records_view(records@)) == Some(s@),
                Err(e) => load_spec(records_view(records@)) is None && e is Corrupt,
            },
    {
        let ghost rv = records_view(records@);
        let ghost es = rv.map_values(|p: (Seq<char>, EntryView)| p.1);
        let mut store = StorageData::new();
        let mut i: usize = 0;
        assert(store.entries() =~= es.subrange(0, 0));
        while i < records.len()
            invariant
                i <= records@.len(),
                rv == records_view(records@),
                es == rv.map_values(|p: (Seq<char>, EntryView)| p.1),
                store.wf(),
                store.entries() == es.subrange(0, i as int),
                forall|j: int| 0 <= j < i ==> #[trigger] rv[j].0 == rv[j].1.key,
            decreases records@.len() - i,
        {
            let rec = &records[i];
            if rec.0 != rec.1.key {
                proof {
                    assert(rv[i as int].0 != rv[i as int].1.key);
                }
                return Err(StorageError::Corrupt(rec.0.clone()));
            }
            if rec.0.as_str().unicode_len() == 0 {
                proof {
                    assert(es[i as int] == rv[i as int].1);
                    assert(es[i as int].key.len() == 0);
                }
                return Err(StorageError::Corrupt(rec.0.clone()));
            }
            match store.find(rec.0.as_str()) {
                Some(j) => {
                    proof {
                        assert(es[i as int] == rv[i as int].1);
                        assert(store.entries()[j as int] == store.data@[j as int]@);
                        assert(store.entries().len() == i);
                        assert(store.entries()[j as int] == es.subrange(0, i as int)[j as int]);
                        assert(es[j as int].key == es[i as int].key);
                        assert(!keys_valid(es));
                    }
                    return Err(StorageError::Corrupt(rec.0.clone()));
                },
                None => {},
            }
            let ghost s0 = store.entries();
            store.data.push(rec.1.duplicate());
            proof {
                assert(es[i as int] == rv[i as int].1);
                assert(store.entries() =~= es.subrange(0, i + 1));
                lemma_map_of_dom(s0, rec.0@);
                assert forall|a: int, b: int|
                    0 <= a < store.entries().len() && 0 <= b < store.entries().len() && a != b
                    implies #[trigger] store.entries()[a].key != #[trigger] store.entries()[b].key by {
                    if a < s0.len() && b < s0.len() {
                        assert(s0[a] == store.entries()[a] && s0[b] == store.entries()[b]);
                    } else if a < s0.len() {
                        assert(s0[a] == store.entries()[a]);
                    } else if b < s0.len() {
                        assert(s0[b] == store.entries()[b]);
                    }
                }
            }
            i = i + 1;
        }
        proof {
            assert(store.entries() =~= es);
        }
        Ok(store)
    }
}

/// Saving a valid key space and loading what was saved gives back the same
/// key space.
pub proof fn lemma_round_trip(s: Seq<EntryView>)
    requires
        keys_valid(s),
    ensures
        load_spec(snapshot_spec(s)) == Some(map_of(s)),
{
    let r = snapshot_spec(s);
    assert(r.map_values(|p: (Seq<char>, EntryView)| p.1) =~= s);
}

/// A put with no expiry is read back, at any later time, as the value put.
pub proof fn lemma_put_then_get(
    m: Map<Seq<char>, EntryView>,
    key: Seq<char>,
    value: Seq<char>,
    written_at: u64,
    now: u64,
)
    ensures
        get_spec(put_spec(m, key, value, None, written_at), key, now) == Some(value),
{
}

/// A put with expiry `ttl` is read back as the value put at the instant it
/// was written, and is absent once more than `ttl` has passed.
pub proof fn lemma_put_then_get_expiring(
    m: Map<Seq<char>, EntryView>,
    key: Seq<char>,
    value: Seq<char>,
    ttl: u64,
    written_at: u64,
    now: u64,
)
    requires
        ttl > 0,
    ensures
        get_spec(put_spec(m, key, value, Some(ttl), written_at), key, written_at) == Some(value),
        now >= written_at && now - written_at > ttl ==> get_spec(
            put_spec(m, key, value, Some(ttl), written_at),
            key,
            now,
        ) is None,
{
}

/// One put: key, value, expiry and the time it is written.
pub ghost struct PutOp {
    pub key: Seq<char>,
    pub value: Seq<char>,
    pub expires_for: Option<u64>,
    pub now: u64,
}

/// The key space after a series of puts, applied in order.
pub open spec fn put_all(m: Map<Seq<char>, EntryView>, ops: Seq<PutOp>) -> Map<Seq<char>, EntryView>
    decreases ops.len(),
{
    if ops.len() == 0 {
        m
    } else {
        let o = ops.last();
        put_spec(put_all(m, ops.drop_last()), o.key, o.value, o.expires_for, o.now)
    }
}

/// Puts on distinct keys, applied one after another in whatever order a
/// lock lets them through, lose no update: each key then holds the entry
/// its own put wrote.
pub proof fn lemma_distinct_puts_kept(m: Map<Seq<char>, EntryView>, ops: Seq<PutOp>, i: int)
    requires
        0 <= i < ops.len(),
        forall|a: int, b: int|
            0 <= a < ops.len() && 0 <= b < ops.len() && a != b ==> #[trigger] ops[a].key != #[trigger] ops[b].key,
    ensures
        put_all(m, ops).contains_key(ops[i].key),
        put_all(m, ops)[ops[i].key] == entry_of(ops[i].key, ops[i].value, ops[i].expires_for, ops[i].now),
    decreases ops.len(),
{
    if i < ops.len() - 1 {
        let t = ops.drop_last();
        assert forall|a: int, b: int|
            0 <= a < t.len() && 0 <= b < t.len() && a != b implies #[trigger] t[a].key != #[trigger] t[b].key by {
            assert(t[a] == ops[a] && t[b] == ops[b]);
        }
        assert(t[i] == ops[i]);
        lemma_distinct_puts_kept(m, t, i);
        assert(ops[i].key != ops[ops.len() - 1].key);
    }
}

} // verus!
