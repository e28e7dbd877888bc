//! What an embedder sets to serve or push a session, and who may read it.
use vstd::prelude::*;
use vstd::string::{StrSliceExecFns, StringExecFns};

use crate::diff::image_store::{
    evicted, first_evictable, holds_key, sizes_add_up, stored, total_size, total_without,
    what_fits_is_added, EntryModel, ImageStore,
};
use crate::model::{blob_models, share_bytes, BlobModel, Grid, PlacementModel};
use crate::text::texts;

verus! {

/// The seconds that a banner is shown to an SSH viewer unless told otherwise.
pub const MOTD_DELAY: u64 = 5;

/// The bytes of payloads that a mirror keeps for its viewers.
pub const IMAGE_STORE_CAP: usize = 67108864;

/// How a session is served to viewers over HTTP. Built with `new`, so that it can gain options.
#[non_exhaustive]
pub struct ServeOptions {
    pub bind: String,
    pub cors_origins: Vec<String>,
    pub ssh_bind: Option<String>,
    pub ssh_host_key: Option<String>,
    pub ssh_motd_file: Option<String>,
    pub ssh_motd_delay: u64,
    pub record_dir: Option<String>,
    /// What is mirrored, for the line that is shown at the start.
    pub source_label: String,
}

impl ServeOptions {
    /// Serves at an address, to the same origin only, without SSH and without a recording.
    pub fn new(bind: String) -> (r: ServeOptions)
        ensures
            r.bind == bind,
            r.cors_origins@.len() == 0,
            r.ssh_bind is None,
            r.ssh_host_key is None,
            r.ssh_motd_file is None,
            r.ssh_motd_delay == MOTD_DELAY,
            r.ssh_motd_delay == 5,
            r.record_dir is None,
            r.source_label@ == "an external frame source"@,
    {
        let mut source_label: String = String::new();
        source_label.append("an external frame source");
        proof {
            assert(source_label@ =~= "an external frame source"@);
        }
        ServeOptions {
            bind,
            cors_origins: Vec::new(),
            ssh_bind: None,
            ssh_host_key: None,
            ssh_motd_file: None,
            ssh_motd_delay: MOTD_DELAY,
            record_dir: None,
            source_label,
        }
    }

    /// The line that is shown once the server listens at an address.
    pub fn banner(&self, local: &str) -> (r: String)
        ensures
            r@ == "shellglass: mirroring "@ + self.source_label@ + " at http://"@ + local@ + "/"@,
    {
        let mut r: String = String::new();
        r.append("shellglass: mirroring ");
        r.append(self.source_label.as_str());
        r.append(" at http://");
        r.append(local);
        r.append("/");
        proof {
            assert(r@ =~= "shellglass: mirroring "@ + self.source_label@ + " at http://"@ + local@
                + "/"@);
        }
        r
    }
}

/// How a session is pushed to a hub. Built with `new`, so that it can gain options.
#[non_exhaustive]
pub struct PushOptions {
    pub url: String,
    pub key: String,
    pub no_record: bool,
    /// Whether the source starts before the hub has accepted a connection.
    pub eager_start: bool,
}

impl PushOptions {
    /// Pushes to a hub under a key: the hub may record, and the source waits for the hub.
    pub fn new(url: String, key: String) -> (r: PushOptions)
        ensures
            r == (PushOptions { url, key, no_record: false, eager_start: false }),
    {
        PushOptions { url, key, no_record: false, eager_start: false }
    }
}

// Other origins.

/// Which other origins may read what a viewer fetches.
pub enum Cors {
    /// None.
    SameOrigin,
    /// All.
    Any,
    /// Those that are listed.
    Listed(Vec<String>),
}

/// Whether a character can stand in the value of a header: all but control characters, of which
/// only the tab can.
pub open spec fn header_char(c: char) -> bool {
    (c as u32 >= 0x20 && c as u32 != 0x7F) || c == '\t'
}

/// Whether a text can be the value of a header.
pub open spec fn header_text(s: Seq<char>) -> bool {
    forall|i: int| 0 <= i < s.len() ==> header_char(#[trigger] s[i])
}

/// The origins that can be the value of a header, in their order.
pub open spec fn header_origins(origins: Seq<String>) -> Seq<String>
    decreases origins.len(),
{
    if origins.len() == 0 {
        Seq::empty()
    } else {
        let before = header_origins(origins.drop_last());
        if header_text(origins.last()@) {
            before.push(origins.last())
        } else {
            before
        }
    }
}

fn is_header_text(s: &String) -> (r: bool)
    ensures
        r == header_text(s@),
{
    let n: usize = s.as_str().unicode_len();
    for i in 0..n
        invariant
            n == s@.len(),
            forall|k: int| 0 <= k < i ==> header_char(#[trigger] s@[k]),
    {
        let c: char = s.as_str().get_char(i);
        if !((c as u32 >= 0x20 && c as u32 != 0x7F) || c == '\t') {
            proof {
                assert(s@[i as int] == c);
            }
            return false;
        }
    }
    true
}

/// Which other origins may read, as configured. A single `*` admits all of them.
pub fn server_cors(origins: &Vec<String>) -> (r: Cors)
    ensures
        match r {
            Cors::SameOrigin => origins@.len() == 0,
            Cors::Any => exists|i: int| 0 <= i < origins@.len() && (#[trigger] origins@[i])@ == "*"@,
            Cors::Listed(l) => origins@.len() > 0 && l@ == header_origins(origins@) && forall|i: int|
                0 <= i < origins@.len() ==> (#[trigger] origins@[i])@ != "*"@,
        },
{
    if origins.len() == 0 {
        return Cors::SameOrigin;
    }
    let mut star: String = String::new();
    star.append("*");
    let mut listed: Vec<String> = Vec::new();
    proof {
        assert(star@ =~= "*"@);
        assert(origins@.take(0) =~= Seq::empty());
    }
    for i in 0..origins.len()
        invariant
            star@ == "*"@,
            listed@ == header_origins(origins@.take(i as int)),
            forall|k: int| 0 <= k < i ==> (#[trigger] origins@[k])@ != "*"@,
    {
        if origins[i] == star {
            proof {
                assert(origins@[i as int]@ == "*"@);
            }
            return Cors::Any;
        }
        proof {
            assert(origins@.take(i + 1).drop_last() =~= origins@.take(i as int));
            assert(origins@.take(i + 1).last() == origins@[i as int]);
        }
        if is_header_text(&origins[i]) {
            listed.push(origins[i].clone());
        }
    }
    proof {
        assert(origins@.take(origins@.len() as int) =~= origins@);
    }
    Cors::Listed(listed)
}

// The payloads that viewers fetch.

/// A payload as it is stored.
pub open spec fn entry_of(blob: (Seq<char>, BlobModel)) -> EntryModel {
    EntryModel { hash: blob.0, mime: blob.1.mime, bytes: blob.1.bytes }
}

/// The bytes of some payloads together.
pub open spec fn payload_size(data: Seq<(Seq<char>, BlobModel)>) -> nat
    decreases data.len(),
{
    if data.len() == 0 {
        0
    } else {
        payload_size(data.drop_last()) + data.last().1.bytes.len()
    }
}

/// The keys of the images on a screen.
pub open spec fn shown_keys(images: Seq<PlacementModel>) -> Set<Seq<char>> {
    Seq::new(images.len(), |i: int| images[i].hash).to_set()
}

/// The entries of a store after the payloads of a screen came in one by one.
pub open spec fn stored_all(
    entries: Seq<EntryModel>,
    data: Seq<(Seq<char>, BlobModel)>,
    keep: Set<Seq<char>>,
    cap: nat,
    hard: nat,
) -> Seq<EntryModel>
    decreases data.len(),
{
    if data.len() == 0 {
        entries
    } else {
        stored(
            stored_all(entries, data.drop_last(), keep, cap, hard),
            entry_of(data.last()),
            keep,
            cap,
            hard,
        )
    }
}

proof fn eviction_shrinks(entries: Seq<EntryModel>, keep: Set<Seq<char>>, cap: nat)
    ensures
        total_size(evicted(entries, keep, cap)) <= total_size(entries),
    decreases entries.len(),
{
    let i = first_evictable(entries, keep, 0);
    if total_size(entries) > cap && 0 <= i < entries.len() {
        total_without(entries, i);
        eviction_shrinks(entries.remove(i), keep, cap);
    }
}

proof fn stored_size(
    entries: Seq<EntryModel>,
    new: EntryModel,
    keep: Set<Seq<char>>,
    cap: nat,
    hard: nat,
)
    ensures
        total_size(stored(entries, new, keep, cap, hard)) <= total_size(entries)
            + new.bytes.len(),
{
    if !holds_key(entries, new.hash) {
        assert(entries.push(new).drop_last() =~= entries);
        eviction_shrinks(entries.push(new), keep.insert(new.hash), cap);
        let soft = evicted(entries.push(new), keep.insert(new.hash), cap);
        eviction_shrinks(soft, Set::empty().insert(new.hash), hard);
    }
}

proof fn payloads_grow(data: Seq<(Seq<char>, BlobModel)>, i: int)
    requires
        0 <= i <= data.len(),
    ensures
        payload_size(data.take(i)) <= payload_size(data),
    decreases data.len() - i,
{
    if i < data.len() {
        assert(data.take(i + 1).drop_last() =~= data.take(i));
        payloads_grow(data, i + 1);
    } else {
        assert(data.take(i) =~= data);
    }
}

/// Stores the payloads of a screen, sparing those that the screen shows.
pub fn store_images(store: &mut ImageStore, grid: &Grid)
    requires
        total_size(old(store)@.entries) + payload_size(grid@.image_data) <= usize::MAX,
    ensures
        final(store)@.entries == stored_all(
            old(store)@.entries,
            grid@.image_data,
            shown_keys(grid@.images),
            old(store)@.cap as nat,
            old(store)@.hard_cap(),
        ),
        final(store)@.cap == old(store)@.cap,
{
    let ghost data = grid@.image_data;
    let ghost keep = shown_keys(grid@.images);
    let mut protected: Vec<String> = Vec::new();
    for i in 0..grid.images.len()
        invariant
            texts(protected@) =~= Seq::new(grid@.images.len(), |k: int| grid@.images[k].hash).take(
                i as int,
            ),
            protected@.len() == i,
    {
        protected.push(grid.images[i].hash.clone());
    }
    proof {
        let all = Seq::new(grid@.images.len(), |k: int| grid@.images[k].hash);
        assert(all.take(all.len() as int) =~= all);
        assert(data.take(0) =~= Seq::empty());
        assert(texts(protected@).to_set() == keep);
    }
    for i in 0..grid.image_data.len()
        invariant
            data == grid@.image_data,
            data == blob_models(grid.image_data@),
            texts(protected@).to_set() == keep,
            total_size(old(store)@.entries) + payload_size(data) <= usize::MAX,
            total_size(store@.entries) <= total_size(old(store)@.entries) + payload_size(
                data.take(i as int),
            ),
            store@.cap == old(store)@.cap,
            store@.entries == stored_all(
                old(store)@.entries,
                data.take(i as int),
                keep,
                old(store)@.cap as nat,
                old(store)@.hard_cap(),
            ),
    {
        let blob = &grid.image_data[i].1;
        proof {
            assert(data.take(i + 1).drop_last() =~= data.take(i as int));
            assert(data.take(i + 1).last() == data[i as int]);
            payloads_grow(data, i + 1);
            stored_size(
                store@.entries,
                entry_of(data[i as int]),
                keep,
                store@.cap as nat,
                store@.hard_cap(),
            );
        }
        store.insert(
            grid.image_data[i].0.clone(),
            blob.mime.clone(),
            share_bytes(&blob.bytes),
            &protected,
        );
    }
    proof {
        assert(data.take(data.len() as int) =~= data);
    }
}

// Who may read, and what is kept.

/// An origin is let in where it is listed and can stand in a header, and no other is.
pub proof fn listed_origins_may_read(origins: Seq<String>, o: String)
    ensures
        header_origins(origins).contains(o) <==> origins.contains(o) && header_text(o@),
    decreases origins.len(),
{
    if origins.len() > 0 {
        let front = origins.drop_last();
        let before = header_origins(front);
        let after = header_origins(origins);
        listed_origins_may_read(front, o);
        if origins.contains(o) {
            let i = choose|i: int| 0 <= i < origins.len() && origins[i] == o;
            if i < front.len() {
                assert(front[i] == o);
            } else if header_text(o@) {
                assert(after.last() == o);
            }
        }
        if front.contains(o) {
            let i = choose|i: int| 0 <= i < front.len() && front[i] == o;
            assert(origins[i] == o);
        }
        if before.contains(o) {
            let i = choose|i: int| 0 <= i < before.len() && before[i] == o;
            assert(after[i] == o);
        }
        if after.contains(o) {
            let i = choose|i: int| 0 <= i < after.len() && after[i] == o;
            if i < before.len() {
                assert(before[i] == o);
            } else {
                assert(origins[origins.len() - 1] == o);
            }
        }
    } else {
        assert(header_origins(origins).len() == 0);
    }
}

/// A header can hold a tab and everything that is no control character of ASCII.
pub proof fn headers_hold_no_control_characters(c: char)
    ensures
        header_char(c) <==> c == '\t' || (c as u32 >= 32 && c as u32 != 127),
{
}

/// What a screen shows is spared, by its key, and nothing else is.
pub proof fn what_is_shown_is_spared(images: Seq<PlacementModel>, key: Seq<char>)
    ensures
        shown_keys(images).contains(key) <==> exists|i: int|
            0 <= i < images.len() && (#[trigger] images[i]).hash == key,
{
    let keys = Seq::new(images.len(), |i: int| images[i].hash);
    if shown_keys(images).contains(key) {
        assert(keys.contains(key));
        let i = choose|i: int| 0 <= i < keys.len() && keys[i] == key;
        assert(images[i].hash == key);
    }
    if exists|i: int| 0 <= i < images.len() && (#[trigger] images[i]).hash == key {
        let i = choose|i: int| 0 <= i < images.len() && (#[trigger] images[i]).hash == key;
        assert(keys[i] == key);
        assert(keys.contains(key));
    }
}

/// The payloads of a screen that fit are all stored, each under its key with its type and bytes,
/// behind those that were there.
pub proof fn payloads_that_fit_are_stored(
    entries: Seq<EntryModel>,
    data: Seq<(Seq<char>, BlobModel)>,
    keep: Set<Seq<char>>,
    cap: nat,
    hard: nat,
    i: int,
)
    requires
        cap <= hard,
        total_size(entries) + payload_size(data) <= cap,
        0 <= i < data.len(),
    ensures
        ({
            let after = stored_all(entries, data, keep, cap, hard);
            &&& total_size(after) <= total_size(entries) + payload_size(data)
            &&& after.len() >= entries.len() && after.take(entries.len() as int) == entries
            &&& holds_key(after, data[i].0)
            &&& holds_key(entries, data[i].0) || (exists|j: int|
                0 <= j < i && (#[trigger] data[j]).0 == data[i].0) || after.contains(
                EntryModel { hash: data[i].0, mime: data[i].1.mime, bytes: data[i].1.bytes },
            )
        }),
{
    fitting(entries, data, keep, cap, hard, i);
}

proof fn fitting(
    entries: Seq<EntryModel>,
    data: Seq<(Seq<char>, BlobModel)>,
    keep: Set<Seq<char>>,
    cap: nat,
    hard: nat,
    i: int,
)
    requires
        cap <= hard,
        total_size(entries) + payload_size(data) <= cap,
    ensures
        ({
            let after = stored_all(entries, data, keep, cap, hard);
            &&& total_size(after) <= total_size(entries) + payload_size(data)
            &&& after.len() >= entries.len() && after.take(entries.len() as int) == entries
            &&& 0 <= i < data.len() ==> holds_key(after, data[i].0)
            &&& 0 <= i < data.len() ==> holds_key(entries, data[i].0) || (exists|j: int|
                0 <= j < i && (#[trigger] data[j]).0 == data[i].0) || after.contains(
                entry_of(data[i]),
            )
            &&& forall|k: Seq<char>| #[trigger]
                holds_key(after, k) ==> holds_key(entries, k) || exists|j: int|
                    0 <= j < data.len() && (#[trigger] data[j]).0 == k
        }),
    decreases data.len(),
{
    let after = stored_all(entries, data, keep, cap, hard);
    if data.len() == 0 {
        assert(entries.take(entries.len() as int) =~= entries);
    } else {
        let front = data.drop_last();
        fitting(entries, front, keep, cap, hard, i);
        let before = stored_all(entries, front, keep, cap, hard);
        let new = entry_of(data.last());
        what_fits_is_added(before, new, keep, cap, hard);
        sizes_add_up(before, new);
        assert(forall|j: int| 0 <= j < front.len() ==> front[j] == data[j]);
        if holds_key(before, new.hash) {
            assert(after == before);
        } else {
            assert(after == before.push(new));
            assert(after.take(entries.len() as int) =~= before.take(entries.len() as int));
            assert(after[before.len() as int] == new);
            assert(after.contains(new));
        }
        assert forall|k: Seq<char>| #[trigger] holds_key(after, k) implies holds_key(entries, k)
            || exists|j: int| 0 <= j < data.len() && (#[trigger] data[j]).0 == k by {
            let m = choose|m: int| 0 <= m < after.len() && (#[trigger] after[m]).hash == k;
            if m < before.len() {
                assert(before[m].hash == k);
                assert(holds_key(before, k));
                if !holds_key(entries, k) {
                    let j = choose|j: int| 0 <= j < front.len() && (#[trigger] front[j]).0 == k;
                    assert(data[j].0 == k);
                }
            } else {
                assert(data[data.len() - 1].0 == k);
            }
        }
        if 0 <= i < front.len() {
            let key = data[i].0;
            assert(front[i] == data[i]);
            let m = choose|m: int| 0 <= m < before.len() && (#[trigger] before[m]).hash == key;
            assert(after[m].hash == key);
            if exists|j: int| 0 <= j < i && (#[trigger] front[j]).0 == key {
                let j = choose|j: int| 0 <= j < i && (#[trigger] front[j]).0 == key;
                assert(data[j].0 == key);
            } else if !holds_key(entries, key) {
                let e = entry_of(data[i]);
                let l = choose|l: int| 0 <= l < before.len() && before[l] == e;
                assert(after[l] == e);
            }
        } else if i == data.len() - 1 {
            if holds_key(before, new.hash) && !holds_key(entries, new.hash) {
                let j = choose|j: int| 0 <= j < front.len() && (#[trigger] front[j]).0 == new.hash;
                assert(data[j].0 == data[i].0);
            }
        }
    }
}

/// A mirror keeps 64 MiB of payloads.
pub proof fn mirrors_keep_payloads()
    ensures
        IMAGE_STORE_CAP == 64 * 1024 * 1024,
{
}

} // verus!
