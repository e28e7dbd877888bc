//! The payloads of images, kept by content key for viewers to fetch.
use vstd::prelude::*;

use crate::model::{bytes_of, share_bytes};
use crate::text::texts;

verus! {

/// A stored payload, mathematically.
pub struct EntryModel {
    pub hash: Seq<char>,
    pub mime: Seq<char>,
    pub bytes: Seq<u8>,
}

/// The sizes of payloads together.
pub open spec fn total_size(entries: Seq<EntryModel>) -> nat
    decreases entries.len(),
{
    if entries.len() == 0 {
        0
    } else {
        total_size(entries.drop_last()) + entries.last().bytes.len()
    }
}

/// The first entry that may go, from `i` on.
pub open spec fn first_evictable(entries: Seq<EntryModel>, keep: Set<Seq<char>>, i: int) -> int
    decreases entries.len() - i,
{
    if i >= entries.len() || !keep.contains(entries[i].hash) {
        i
    } else {
        first_evictable(entries, keep, i + 1)
    }
}

/// The entries after the oldest that may go were dropped, one after the other, until the rest
/// fits `cap` or none may go any more.
pub open spec fn evicted(entries: Seq<EntryModel>, keep: Set<Seq<char>>, cap: nat) -> Seq<EntryModel>
    decreases entries.len(),
{
    let i = first_evictable(entries, keep, 0);
    if total_size(entries) <= cap || i < 0 || i >= entries.len() {
        entries
    } else {
        evicted(entries.remove(i), keep, cap)
    }
}

/// The entries of a store after an insertion: first down to the soft cap, sparing what is
/// protected, then down to the hard cap, sparing only what just came in.
pub open spec fn stored(
    entries: Seq<EntryModel>,
    new: EntryModel,
    protected: Set<Seq<char>>,
    cap: nat,
    hard: nat,
) -> Seq<EntryModel> {
    if holds_key(entries, new.hash) {
        entries
    } else {
        let soft = evicted(entries.push(new), protected.insert(new.hash), cap);
        evicted(soft, Set::empty().insert(new.hash), hard)
    }
}

/// Whether a key is stored.
pub open spec fn holds_key(entries: Seq<EntryModel>, hash: Seq<char>) -> bool {
    exists|i: int| 0 <= i < entries.len() && (#[trigger] entries[i]).hash == hash
}

/// No key is stored twice.
pub open spec fn distinct_keys(entries: Seq<EntryModel>) -> bool {
    forall|i: int, j: int|
        #![trigger entries[i], entries[j]]
        0 <= i < j < entries.len() ==> entries[i].hash != entries[j].hash
}

struct Entry {
    hash: String,
    mime: String,
    bytes: bytes::Bytes,
}

impl View for Entry {
    type V = EntryModel;

    closed spec fn view(&self) -> EntryModel {
        EntryModel { hash: self.hash@, mime: self.mime@, bytes: bytes_of(self.bytes) }
    }
}

closed spec fn entry_models(v: Seq<Entry>) -> Seq<EntryModel> {
    Seq::new(v.len(), |i: int| v[i]@)
}

/// What a store holds, mathematically: its entries, oldest first, and its soft cap.
pub struct StoreModel {
    pub entries: Seq<EntryModel>,
    pub cap: usize,
}

impl StoreModel {
    /// Twice the soft cap, as far as that can be counted.
    pub open spec fn hard_cap(self) -> nat {
        if self.cap * 2 > usize::MAX {
            usize::MAX as nat
        } else {
            (self.cap * 2) as nat
        }
    }

    pub open spec fn wf(self) -> bool {
        distinct_keys(self.entries) && total_size(self.entries) <= usize::MAX
    }
}

/// A byte-capped store of image payloads. The oldest go first, but those on screen stay as long
/// as everything on screen fits twice the cap.
pub struct ImageStore {
    entries: Vec<Entry>,
    total: usize,
    cap: usize,
}

impl View for ImageStore {
    type V = StoreModel;

    closed spec fn view(&self) -> StoreModel {
        StoreModel { entries: entry_models(self.entries@), cap: self.cap }
    }
}

impl ImageStore {
    /// The total is that of the entries.
    #[verifier::type_invariant]
    closed spec fn counted(self) -> bool {
        self.total == total_size(self@.entries) && distinct_keys(self@.entries)
    }

    /// An empty store with a soft cap in bytes.
    pub fn new(cap: usize) -> (r: ImageStore)
        ensures
            r@.entries == Seq::<EntryModel>::empty(),
            r@.cap == cap,
    {
        let entries: Vec<Entry> = Vec::new();
        proof {
            assert(entry_models(entries@) =~= Seq::empty());
        }
        ImageStore { entries, total: 0, cap }
    }

    /// Stores a payload under its content key and drops what no longer fits. A key that is
    /// stored already stays as it is: the same key stands for the same bytes.
    pub fn insert(
        &mut self,
        hash: String,
        mime: String,
        bytes: bytes::Bytes,
        protected: &Vec<String>,
    )
        requires
            holds_key(old(self)@.entries, hash@) || total_size(old(self)@.entries) + bytes_of(
                bytes,
            ).len() <= usize::MAX,
        ensures
            final(self)@.entries == stored(
                old(self)@.entries,
                EntryModel { hash: hash@, mime: mime@, bytes: bytes_of(bytes) },
                texts(protected@).to_set(),
                old(self)@.cap as nat,
                old(self)@.hard_cap(),
            ),
            final(self)@.cap == old(self)@.cap,
    {
        proof {
            use_type_invariant(&*self);
        }
        if self.contains(&hash) {
            return;
        }
        let ghost before = self@.entries;
        let ghost new = EntryModel { hash: hash@, mime: mime@, bytes: bytes_of(bytes) };
        let ghost spare = texts(protected@).to_set().insert(hash@);
        let cap: usize = self.cap;
        let hard: usize = if cap <= usize::MAX / 2 {
            cap * 2
        } else {
            usize::MAX
        };
        let size: usize = bytes.len();
        let total: usize = self.total + size;
        let mut entries = self.copy_entries();
        let key = hash.clone();
        entries.push(Entry { hash, mime, bytes });
        proof {
            assert(entry_models(entries@) =~= before.push(new));
            assert(before.push(new).drop_last() =~= before);
            assert(distinct_keys(before.push(new))) by {
                assert forall|i: int, j: int|
                    #![trigger before.push(new)[i], before.push(new)[j]]
                    0 <= i < j < before.push(new).len() implies before.push(new)[i].hash
                    != before.push(new)[j].hash by {
                    if j == before.len() {
                        assert(before[i].hash != new.hash);
                    }
                }
            }
        }
        let (entries, total) = evict(entries, total, cap, protected, &key, Ghost(spare));
        let none: Vec<String> = Vec::new();
        proof {
            assert(texts(none@).to_set().insert(key@) =~= Set::empty().insert(key@)) by {
                assert(texts(none@) =~= Seq::empty());
                assert(texts(none@).to_set() =~= Set::empty());
            }
        }
        let (entries, total) = evict(
            entries,
            total,
            hard,
            &none,
            &key,
            Ghost(Set::empty().insert(key@)),
        );
        *self = ImageStore { entries, total, cap };
    }

    fn copy_entries(&self) -> (r: Vec<Entry>)
        ensures
            entry_models(r@) == self@.entries,
    {
        let mut r: Vec<Entry> = Vec::new();
        for i in 0..self.entries.len()
            invariant
                r@.len() == i,
                forall|j: int| 0 <= j < i ==> (#[trigger] r@[j])@ == self.entries@[j]@,
        {
            let e = &self.entries[i];
            r.push(
                Entry {
                    hash: e.hash.clone(),
                    mime: e.mime.clone(),
                    bytes: share_bytes(&e.bytes),
                },
            );
        }
        proof {
            assert(entry_models(r@) =~= self@.entries);
        }
        r
    }

    fn contains(&self, hash: &String) -> (r: bool)
        ensures
            r == holds_key(self@.entries, hash@),
    {
        for i in 0..self.entries.len()
            invariant
                forall|j: int| 0 <= j < i ==> (#[trigger] self@.entries[j]).hash != hash@,
        {
            proof {
                assert(self@.entries[i as int] == self.entries@[i as int]@);
            }
            if self.entries[i].hash == *hash {
                return true;
            }
        }
        false
    }

    /// The payload of a key: its media type and bytes.
    pub fn get(&self, hash: &str) -> (r: Option<(String, bytes::Bytes)>)
        ensures
            r is Some <==> holds_key(self@.entries, hash@),
            r is Some ==> exists|i: int|
                0 <= i < self@.entries.len() && #[trigger] self@.entries[i] == (EntryModel {
                    hash: hash@,
                    mime: (r->Some_0).0@,
                    bytes: bytes_of((r->Some_0).1),
                }),
    {
        let mut key: String = String::new();
        vstd::string::StringExecFns::append(&mut key, hash);
        proof {
            assert(key@ =~= hash@);
        }
        for i in 0..self.entries.len()
            invariant
                key@ == hash@,
                forall|j: int| 0 <= j < i ==> (#[trigger] self@.entries[j]).hash != hash@,
        {
            proof {
                assert(self@.entries[i as int] == self.entries@[i as int]@);
            }
            let e = &self.entries[i];
            if e.hash == key {
                return Some((e.mime.clone(), share_bytes(&e.bytes)));
            }
        }
        None
    }

    /// The number of payloads.
    pub fn len(&self) -> (r: usize)
        ensures
            r == self@.entries.len(),
    {
        self.entries.len()
    }

    /// The size of all payloads together.
    pub fn total(&self) -> (r: usize)
        ensures
            r == total_size(self@.entries),
    {
        proof {
            use_type_invariant(self);
        }
        self.total
    }
}

fn is_listed(list: &Vec<String>, key: &String) -> (r: bool)
    ensures
        r == texts(list@).to_set().contains(key@),
{
    for i in 0..list.len()
        invariant
            forall|j: int| 0 <= j < i ==> (#[trigger] texts(list@)[j]) != key@,
    {
        proof {
            assert(texts(list@)[i as int] == list@[i as int]@);
        }
        if list[i] == *key {
            proof {
                assert(texts(list@).contains(key@));
            }
            return true;
        }
    }
    false
}

/// Removing an entry takes its size off the total.
pub(crate) proof fn total_without(entries: Seq<EntryModel>, i: int)
    requires
        0 <= i < entries.len(),
    ensures
        total_size(entries.remove(i)) + entries[i].bytes.len() == total_size(entries),
    decreases entries.len(),
{
    if i == entries.len() - 1 {
        assert(entries.remove(i) =~= entries.drop_last());
    } else {
        total_without(entries.drop_last(), i);
        assert(entries.remove(i).drop_last() =~= entries.drop_last().remove(i));
        assert(entries.remove(i).last() == entries.last());
    }
}

/// Drops the oldest entries that may go until the rest fits.
fn evict(
    entries: Vec<Entry>,
    total: usize,
    cap: usize,
    protected: &Vec<String>,
    key: &String,
    spare: Ghost<Set<Seq<char>>>,
) -> (r: (Vec<Entry>, usize))
    requires
        total == total_size(entry_models(entries@)),
        distinct_keys(entry_models(entries@)),
        spare@ == texts(protected@).to_set().insert(key@),
    ensures
        entry_models(r.0@) == evicted(entry_models(entries@), spare@, cap as nat),
        r.1 == total_size(entry_models(r.0@)),
        distinct_keys(entry_models(r.0@)),
{
    let ghost start = entry_models(entries@);
    let ghost keep = spare@;
    let mut entries = entries;
    let mut total: usize = total;
    let mut i: usize = 0;
    while i < entries.len() && total > cap
        invariant
            keep == texts(protected@).to_set().insert(key@),
            i <= entries@.len(),
            total == total_size(entry_models(entries@)),
            distinct_keys(entry_models(entries@)),
            first_evictable(entry_models(entries@), keep, 0) == first_evictable(
                entry_models(entries@),
                keep,
                i as int,
            ),
            forall|j: int|
                0 <= j < i ==> keep.contains((#[trigger] entry_models(entries@)[j]).hash),
            evicted(start, keep, cap as nat) == evicted(entry_models(entries@), keep, cap as nat),
        decreases entries@.len() - i,
    {
        let ghost m = entry_models(entries@);
        proof {
            assert(m[i as int] == entries@[i as int]@);
        }
        if entries[i].hash == *key || is_listed(protected, &entries[i].hash) {
            i = i + 1;
        } else {
            proof {
                total_without(m, i as int);
                assert(first_evictable(m, keep, 0) == i);
            }
            let gone = entries.remove(i);
            total = total - gone.bytes.len();
            proof {
                assert(entry_models(entries@) =~= m.remove(i as int));
                skip_kept(m.remove(i as int), keep, 0, i as int);
            }
        }
    }
    proof {
        let m = entry_models(entries@);
        if i >= entries@.len() {
            assert(first_evictable(m, keep, 0) >= m.len());
        }
    }
    (entries, total)
}

proof fn skip_kept(m: Seq<EntryModel>, keep: Set<Seq<char>>, i: int, k: int)
    requires
        0 <= i <= k <= m.len(),
        forall|j: int| i <= j < k ==> keep.contains((#[trigger] m[j]).hash),
    ensures
        first_evictable(m, keep, i) == first_evictable(m, keep, k),
    decreases k - i,
{
    if i < k {
        skip_kept(m, keep, i + 1, k);
    }
}

/// What is spared stays, and what stays was there.
proof fn spared_stay(entries: Seq<EntryModel>, keep: Set<Seq<char>>, cap: nat)
    ensures
        forall|e: EntryModel|
            entries.contains(e) && keep.contains(e.hash) ==> #[trigger] evicted(
                entries,
                keep,
                cap,
            ).contains(e),
        forall|e: EntryModel| #[trigger]
            evicted(entries, keep, cap).contains(e) ==> entries.contains(e),
    decreases entries.len(),
{
    let i = first_evictable(entries, keep, 0);
    if !(total_size(entries) <= cap || i < 0 || i >= entries.len()) {
        let rest = entries.remove(i);
        first_is_evictable(entries, keep, 0);
        spared_stay(rest, keep, cap);
        assert(evicted(entries, keep, cap) == evicted(rest, keep, cap));
        assert forall|e: EntryModel| entries.contains(e) && keep.contains(e.hash) implies
            #[trigger] evicted(entries, keep, cap).contains(e) by {
            let k = choose|k: int| 0 <= k < entries.len() && entries[k] == e;
            assert(k != i);
            if k < i {
                assert(rest[k] == e);
            } else {
                assert(rest[k - 1] == e);
            }
            assert(rest.contains(e));
        }
        assert forall|e: EntryModel| #[trigger]
            evicted(entries, keep, cap).contains(e) implies entries.contains(e) by {
            assert(rest.contains(e));
            let k = choose|k: int| 0 <= k < rest.len() && rest[k] == e;
            if k < i {
                assert(entries[k] == e);
            } else {
                assert(entries[k + 1] == e);
            }
        }
    }
}

proof fn first_is_evictable(entries: Seq<EntryModel>, keep: Set<Seq<char>>, i: int)
    requires
        0 <= i,
    ensures
        first_evictable(entries, keep, i) >= i,
        first_evictable(entries, keep, i) < entries.len() ==> !keep.contains(
            entries[first_evictable(entries, keep, i)].hash,
        ),
        forall|j: int|
            i <= j < first_evictable(entries, keep, i) && j < entries.len() ==> keep.contains(
                (#[trigger] entries[j]).hash,
            ),
    decreases entries.len() - i,
{
    if i < entries.len() && keep.contains(entries[i].hash) {
        first_is_evictable(entries, keep, i + 1);
    }
}

/// What is left fits the cap, or is all spared.
proof fn rest_fits(entries: Seq<EntryModel>, keep: Set<Seq<char>>, cap: nat)
    ensures
        total_size(evicted(entries, keep, cap)) <= cap || forall|j: int|
            0 <= j < evicted(entries, keep, cap).len() ==> keep.contains(
                (#[trigger] evicted(entries, keep, cap)[j]).hash,
            ),
    decreases entries.len(),
{
    let i = first_evictable(entries, keep, 0);
    first_is_evictable(entries, keep, 0);
    if !(total_size(entries) <= cap || i < 0 || i >= entries.len()) {
        rest_fits(entries.remove(i), keep, cap);
        assert(evicted(entries, keep, cap) == evicted(entries.remove(i), keep, cap));
    }
}

/// A payload that comes in is never dropped by its own insertion, so that the frame that is to
/// follow it finds it.
pub proof fn new_payload_stays(
    entries: Seq<EntryModel>,
    new: EntryModel,
    protected: Set<Seq<char>>,
    cap: nat,
    hard: nat,
)
    ensures
        holds_key(stored(entries, new, protected, cap, hard), new.hash),
{
    if !holds_key(entries, new.hash) {
        let all = entries.push(new);
        assert(all[all.len() - 1] == new);
        assert(all.contains(new));
        let soft = evicted(all, protected.insert(new.hash), cap);
        spared_stay(all, protected.insert(new.hash), cap);
        assert(soft.contains(new));
        let only = Set::<Seq<char>>::empty().insert(new.hash);
        spared_stay(soft, only, hard);
        let end = evicted(soft, only, hard);
        assert(end.contains(new));
        let k = choose|k: int| 0 <= k < end.len() && end[k] == new;
        assert(end[k].hash == new.hash);
    }
}

/// However much is protected, after an insertion the store is within the hard cap, or holds
/// nothing but what just came in.
pub proof fn hard_cap_holds(
    entries: Seq<EntryModel>,
    new: EntryModel,
    protected: Set<Seq<char>>,
    cap: nat,
    hard: nat,
)
    requires
        !holds_key(entries, new.hash),
    ensures
        total_size(stored(entries, new, protected, cap, hard)) <= hard || forall|j: int|
            0 <= j < stored(entries, new, protected, cap, hard).len() ==> (
            #[trigger] stored(entries, new, protected, cap, hard)[j]).hash == new.hash,
{
    let soft = evicted(entries.push(new), protected.insert(new.hash), cap);
    rest_fits(soft, Set::<Seq<char>>::empty().insert(new.hash), hard);
}

/// As long as what the soft cap leaves fits the hard cap, everything protected stays, and what
/// is over the soft cap is protected or just came in.
pub proof fn protected_payloads_stay(
    entries: Seq<EntryModel>,
    new: EntryModel,
    protected: Set<Seq<char>>,
    cap: nat,
    hard: nat,
)
    requires
        !holds_key(entries, new.hash),
        total_size(evicted(entries.push(new), protected.insert(new.hash), cap)) <= hard,
    ensures
        forall|e: EntryModel|
            entries.contains(e) && protected.contains(e.hash) ==> #[trigger] stored(
                entries,
                new,
                protected,
                cap,
                hard,
            ).contains(e),
        total_size(stored(entries, new, protected, cap, hard)) <= cap || forall|j: int|
            0 <= j < stored(entries, new, protected, cap, hard).len() ==> protected.insert(
                new.hash,
            ).contains((#[trigger] stored(entries, new, protected, cap, hard)[j]).hash),
{
    let all = entries.push(new);
    let keep = protected.insert(new.hash);
    let soft = evicted(all, keep, cap);
    spared_stay(all, keep, cap);
    rest_fits(all, keep, cap);
    let end = stored(entries, new, protected, cap, hard);
    assert(end == soft);
    assert forall|e: EntryModel| entries.contains(e) && protected.contains(e.hash) implies
        #[trigger] end.contains(e) by {
        let k = choose|k: int| 0 <= k < entries.len() && entries[k] == e;
        assert(all[k] == e);
        assert(all.contains(e));
    }
}

// What an insertion does.

/// Sizes of payloads are counted together.
pub proof fn sizes_add_up(entries: Seq<EntryModel>, e: EntryModel)
    ensures
        total_size(Seq::empty()) == 0,
        total_size(entries.push(e)) == total_size(entries) + e.bytes.len(),
{
    assert(entries.push(e).drop_last() =~= entries);
}

/// A payload that fits comes last, and all others stay. One whose key is stored changes nothing.
pub proof fn what_fits_is_added(
    entries: Seq<EntryModel>,
    new: EntryModel,
    protected: Set<Seq<char>>,
    cap: nat,
    hard: nat,
)
    requires
        cap <= hard,
    ensures
        holds_key(entries, new.hash) ==> stored(entries, new, protected, cap, hard) == entries,
        !holds_key(entries, new.hash) && total_size(entries) + new.bytes.len() <= cap ==> stored(
            entries,
            new,
            protected,
            cap,
            hard,
        ) == entries.push(new),
        !holds_key(entries, new.hash) ==> stored(entries, new, protected, cap, hard).contains(new),
{
    sizes_add_up(entries, new);
    if !holds_key(entries, new.hash) {
        let all = entries.push(new);
        assert(all[all.len() - 1] == new);
        assert(all.contains(new));
        let keep = protected.insert(new.hash);
        let only = Set::<Seq<char>>::empty().insert(new.hash);
        spared_stay(all, keep, cap);
        spared_stay(evicted(all, keep, cap), only, hard);
    }
}

proof fn oldest_go(entries: Seq<EntryModel>, new: EntryModel, cap: nat, i: int) -> (k: int)
    requires
        !holds_key(entries, new.hash),
    ensures
        ({
            let all = entries.push(new);
            &&& 0 <= k <= entries.len()
            &&& evicted(all, Set::empty().insert(new.hash), cap) == all.skip(k)
            &&& k < entries.len() ==> total_size(all.skip(k)) <= cap
            &&& 0 <= i < k ==> total_size(all.skip(i)) > cap
        }),
    decreases entries.len(),
{
    let all = entries.push(new);
    let keep = Set::<Seq<char>>::empty().insert(new.hash);
    assert(all.skip(0) =~= all);
    if entries.len() == 0 {
        assert(all[0] == new);
        first_is_evictable(all, keep, 0);
        assert(keep.contains(all[0].hash));
        assert(first_evictable(all, keep, 0) == first_evictable(all, keep, 1));
        0
    } else if total_size(all) <= cap {
        0
    } else {
        let rest = entries.drop_first();
        assert(all[0] == entries[0]);
        assert(!keep.contains(all[0].hash));
        assert(first_evictable(all, keep, 0) == 0);
        assert(all.remove(0) =~= rest.push(new));
        assert(!holds_key(rest, new.hash)) by {
            if holds_key(rest, new.hash) {
                let j = choose|j: int| 0 <= j < rest.len() && (#[trigger] rest[j]).hash == new.hash;
                assert(entries[j + 1].hash == new.hash);
            }
        }
        let k = oldest_go(rest, new, cap, i - 1);
        assert(rest.push(new).skip(k) =~= all.skip(k + 1));
        if 0 < i < k + 1 {
            assert(rest.push(new).skip(i - 1) =~= all.skip(i));
        }
        k + 1
    }
}

/// Where nothing is protected the oldest payloads go, and no more of them than must: what stays is
/// the newest that fit the cap, or just the new one.
pub proof fn the_oldest_payloads_go(
    entries: Seq<EntryModel>,
    new: EntryModel,
    cap: nat,
    hard: nat,
)
    requires
        !holds_key(entries, new.hash),
        cap <= hard,
    ensures
        exists|k: int|
            #![trigger entries.push(new).skip(k)]
            0 <= k <= entries.len() && stored(entries, new, Set::empty(), cap, hard)
                == entries.push(new).skip(k) && (k < entries.len() ==> total_size(
                entries.push(new).skip(k),
            ) <= cap) && (k > 0 ==> total_size(entries.push(new).skip(k - 1)) > cap),
{
    let all = entries.push(new);
    let keep = Set::<Seq<char>>::empty().insert(new.hash);
    let j = oldest_go(entries, new, cap, 0);
    let k = oldest_go(entries, new, cap, j - 1);
    if k != j {
        assert(all.skip(k).len() == all.len() - k);
        assert(all.skip(j).len() == all.len() - j);
    }
    let soft = all.skip(k);
    if k == entries.len() {
        assert(soft =~= seq![new]);
        assert(keep.contains(soft[0].hash));
        assert(first_evictable(soft, keep, 0) == first_evictable(soft, keep, 1));
    }
    assert(evicted(soft, keep, hard) == soft);
    assert(all.skip(k) == soft);
}

/// The cap that holds whatever is on screen is twice the one that was asked for.
pub proof fn the_hard_cap_is_twice_the_cap(s: StoreModel)
    ensures
        s.cap <= usize::MAX / 2 ==> s.hard_cap() == 2 * s.cap,
        s.hard_cap() >= s.cap,
{
}

} // verus!
