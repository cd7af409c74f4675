//! The content store: devices keyed by volume identity, content records keyed
//! by content identity, and locations keyed by (device, path).

use vstd::prelude::*;
use crate::model::{DetectedDisk, FileLocation, FileRecord, StorageDevice, copy_opt};
use crate::analytics::{lemma_listed_once, listed_once, position_listed};
use crate::order::{lemma_reordered_positions, sort_text, text_ascending, text_lt};
use crate::text::{is_prefix, same_text, starts_with};

verus! {

/// Whether `p` is one of the texts of `seen`.
pub fn contains_text(seen: &Vec<String>, p: &str) -> (r: bool)
    ensures
        r == was_seen(seen@, p@),
{
    let mut i: usize = 0;
    while i < seen.len()
        invariant
            i <= seen@.len(),
            forall|k: int| 0 <= k < i ==> (#[trigger] seen@[k])@ != p@,
        decreases seen@.len() - i,
    {
        if same_text(seen[i].as_str(), p) {
            return true;
        }
        i = i + 1;
    }
    false
}

/// The view of an optional text.
pub open spec fn opt_view(o: Option<String>) -> Option<Seq<char>> {
    match o {
        Some(s) => Some(s@),
        None => None,
    }
}

/// `l` records `path` on `device`.
pub open spec fn at_place(l: FileLocation, device: Seq<char>, path: Seq<char>) -> bool {
    l.device_id@ == device && l.file_path@ == path
}

/// `l` holds what one upsert of these values writes, its id aside.
pub open spec fn location_holds(
    l: FileLocation,
    hash: Seq<char>,
    device: Seq<char>,
    path: Seq<char>,
    name: Seq<char>,
    size: i64,
    modified: Option<Seq<char>>,
    mode: Seq<char>,
    now: Seq<char>,
) -> bool {
    &&& l.blake3_hash@ == hash
    &&& at_place(l, device, path)
    &&& l.file_name@ == name
    &&& l.file_size == size
    &&& opt_view(l.modified_at) == modified
    &&& l.scan_mode@ == mode
    &&& l.last_verified@ == now
}

/// Some location of `locs` records `path` on `device`.
pub open spec fn has_place(locs: Seq<FileLocation>, device: Seq<char>, path: Seq<char>) -> bool {
    exists|i: int| 0 <= i < locs.len() && at_place(#[trigger] locs[i], device, path)
}

/// Some record of `files` is for `hash`.
pub open spec fn has_record(files: Seq<FileRecord>, hash: Seq<char>) -> bool {
    exists|i: int| 0 <= i < files.len() && (#[trigger] files[i]).blake3_hash@ == hash
}

/// Some location of `locs` holds `hash`.
pub open spec fn is_referenced(locs: Seq<FileLocation>, hash: Seq<char>) -> bool {
    exists|i: int| 0 <= i < locs.len() && (#[trigger] locs[i]).blake3_hash@ == hash
}

/// `path` is one of the texts of `seen`.
pub open spec fn was_seen(seen: Seq<String>, path: Seq<char>) -> bool {
    exists|i: int| 0 <= i < seen.len() && (#[trigger] seen[i])@ == path
}

/// A location that a scan of `prefix` on `device` should have seen and did not.
pub open spec fn is_stale(l: FileLocation, device: Seq<char>, prefix: Seq<char>, seen: Seq<String>) -> bool {
    l.device_id@ == device && is_prefix(prefix, l.file_path@) && !was_seen(seen, l.file_path@)
}

/// Locations on `device`.
pub open spec fn on_device(device: Seq<char>) -> spec_fn(FileLocation) -> bool {
    |l: FileLocation| l.device_id@ == device
}

/// Locations that hold `hash`.
pub open spec fn holds_hash(hash: Seq<char>) -> spec_fn(FileLocation) -> bool {
    |l: FileLocation| l.blake3_hash@ == hash
}

/// The locations that reconciliation keeps.
pub open spec fn kept_after_scan(device: Seq<char>, prefix: Seq<char>, seen: Seq<String>) -> spec_fn(FileLocation) -> bool {
    |l: FileLocation| !is_stale(l, device, prefix, seen)
}

/// The content records that orphan cleanup keeps.
pub open spec fn referenced_by(locs: Seq<FileLocation>) -> spec_fn(FileRecord) -> bool {
    |f: FileRecord| is_referenced(locs, f.blake3_hash@)
}

/// What an upsert of a content record does: nothing where `hash` is
/// recorded already; otherwise a record of these values is appended.
pub open spec fn file_upserted(
    old_files: Seq<FileRecord>,
    new_files: Seq<FileRecord>,
    hash: Seq<char>,
    size: i64,
    name: Seq<char>,
    ext: Seq<char>,
    now: Seq<char>,
) -> bool {
    if has_record(old_files, hash) {
        new_files == old_files
    } else {
        &&& new_files.len() == old_files.len() + 1
        &&& new_files.drop_last() == old_files
        &&& new_files.last().blake3_hash@ == hash
        &&& new_files.last().file_size == size
        &&& new_files.last().representative_name@ == name
        &&& new_files.last().extension@ == ext
        &&& new_files.last().created_at@ == now
    }
}

/// What an upsert of a location does to the location list: where (device,
/// path) is recorded, that entry is overwritten in place and keeps its id;
/// otherwise a new entry with the next id is appended.
pub open spec fn location_upserted(
    old_locs: Seq<FileLocation>,
    new_locs: Seq<FileLocation>,
    old_next: i64,
    new_next: i64,
    hash: Seq<char>,
    device: Seq<char>,
    path: Seq<char>,
    name: Seq<char>,
    size: i64,
    modified: Option<Seq<char>>,
    mode: Seq<char>,
    now: Seq<char>,
) -> bool {
    if has_place(old_locs, device, path) {
        &&& new_locs.len() == old_locs.len()
        &&& new_next == old_next
        &&& forall|j: int| 0 <= j < old_locs.len() ==> {
            if at_place(#[trigger] old_locs[j], device, path) {
                location_holds(new_locs[j], hash, device, path, name, size, modified, mode, now)
                    && new_locs[j].id == old_locs[j].id
            } else {
                new_locs[j] == old_locs[j]
            }
        }
    } else {
        &&& new_locs.len() == old_locs.len() + 1
        &&& new_next == old_next + 1
        &&& forall|j: int| 0 <= j < old_locs.len() ==> new_locs[j] == old_locs[j]
        &&& location_holds(new_locs.last(), hash, device, path, name, size, modified, mode, now)
        &&& new_locs.last().id == old_next
    }
}

/// The persisted state: devices, content records and their locations.
pub struct ContentStore {
    pub devices: Vec<StorageDevice>,
    pub files: Vec<FileRecord>,
    pub locations: Vec<FileLocation>,
    /// The id that the next new location receives.
    pub next_location_id: i64,
}

impl ContentStore {
    /// Keys are unique in each table, and location ids lie below the next one.
    pub open spec fn wf(&self) -> bool {
        &&& forall|i: int, j: int|
            0 <= i < j < self.devices@.len() ==> self.devices@[i].id@ != self.devices@[j].id@
        &&& forall|i: int, j: int|
            0 <= i < j < self.files@.len() ==> self.files@[i].blake3_hash@
                != self.files@[j].blake3_hash@
        &&& forall|i: int, j: int|
            0 <= i < j < self.locations@.len() ==> !at_place(
                self.locations@[i],
                self.locations@[j].device_id@,
                self.locations@[j].file_path@,
            )
        &&& forall|i: int|
            0 <= i < self.locations@.len() ==> 0 < #[trigger] self.locations@[i].id
                < self.next_location_id
        &&& 0 < self.next_location_id
        &&& self.locations@.len() < self.next_location_id
        &&& self.files@.len() <= i64::MAX
        &&& self.devices@.len() <= i64::MAX
    }

    /// An empty store.
    pub fn new() -> (r: ContentStore)
        ensures
            r.wf(),
            r.devices@.len() == 0,
            r.files@.len() == 0,
            r.locations@.len() == 0,
    {
        ContentStore { devices: Vec::new(), files: Vec::new(), locations: Vec::new(), next_location_id: 1 }
    }

    /// Where (device, path) is recorded.
    pub fn find_location(&self, device_id: &str, file_path: &str) -> (r: Option<usize>)
        requires
            self.wf(),
        ensures
            match r {
                Some(i) => i < self.locations@.len() && at_place(
                    self.locations@[i as int],
                    device_id@,
                    file_path@,
                ),
                None => !has_place(self.locations@, device_id@, file_path@),
            },
    {
        let mut i: usize = 0;
        while i < self.locations.len()
            invariant
                i <= self.locations@.len(),
                forall|k: int| 0 <= k < i ==> !at_place(#[trigger] self.locations@[k], device_id@, file_path@),
            decreases self.locations@.len() - i,
        {
            let l = &self.locations[i];
            if same_text(l.device_id.as_str(), device_id) && same_text(l.file_path.as_str(), file_path) {
                return Some(i);
            }
            i = i + 1;
        }
        None
    }

    /// The location recorded for (device, path), if any.
    pub fn get_existing_location(&self, device_id: &str, file_path: &str) -> (r: Option<FileLocation>)
        requires
            self.wf(),
        ensures
            match r {
                Some(l) => exists|i: int| 0 <= i < self.locations@.len() && self.locations@[i] == l
                    && at_place(l, device_id@, file_path@),
                None => !has_place(self.locations@, device_id@, file_path@),
            },
    {
        match self.find_location(device_id, file_path) {
            Some(i) => Some(self.locations[i].duplicate()),
            None => None,
        }
    }

    /// Records that `hash` lies at `file_path` on `device_id`, overwriting what
    /// was recorded there; `now` becomes its verification time.
    pub fn upsert_location(
        &mut self,
        hash: &str,
        device_id: &str,
        file_path: &str,
        file_name: &str,
        file_size: i64,
        modified_at: &Option<String>,
        scan_mode: &str,
        now: &str,
    )
        requires
            old(self).wf(),
            old(self).next_location_id < i64::MAX,
        ensures
            final(self).wf(),
            final(self).devices == old(self).devices,
            final(self).files == old(self).files,
            location_upserted(
                old(self).locations@,
                final(self).locations@,
                old(self).next_location_id,
                final(self).next_location_id,
                hash@,
                device_id@,
                file_path@,
                file_name@,
                file_size,
                opt_view(*modified_at),
                scan_mode@,
                now@,
            ),
    {
        let found = self.find_location(device_id, file_path);
        match found {
            Some(i) => {
                let id = self.locations[i].id;
                let l = FileLocation {
                    id,
                    blake3_hash: hash.to_owned(),
                    device_id: self.locations[i].device_id.clone(),
                    file_path: self.locations[i].file_path.clone(),
                    file_name: file_name.to_owned(),
                    file_size,
                    modified_at: copy_opt(modified_at),
                    last_verified: now.to_owned(),
                    scan_mode: scan_mode.to_owned(),
                };
                self.locations.set(i, l);
                assert forall|a: int, b: int| 0 <= a < b < self.locations@.len() implies !at_place(
                    self.locations@[a],
                    self.locations@[b].device_id@,
                    self.locations@[b].file_path@,
                ) by {
                    assert(old(self).wf());
                }
            },
            None => {
                let l = FileLocation {
                    id: self.next_location_id,
                    blake3_hash: hash.to_owned(),
                    device_id: device_id.to_owned(),
                    file_path: file_path.to_owned(),
                    file_name: file_name.to_owned(),
                    file_size,
                    modified_at: copy_opt(modified_at),
                    last_verified: now.to_owned(),
                    scan_mode: scan_mode.to_owned(),
                };
                self.locations.push(l);
                self.next_location_id = self.next_location_id + 1;
                assert forall|a: int, b: int| 0 <= a < b < self.locations@.len() implies !at_place(
                    self.locations@[a],
                    self.locations@[b].device_id@,
                    self.locations@[b].file_path@,
                ) by {
                    if b == self.locations@.len() - 1 {
                        assert(old(self).locations@[a] == self.locations@[a]);
                    } else {
                        assert(old(self).wf());
                    }
                }
            },
        }
    }

    /// Records a content identity unless it is recorded already: the first
    /// name and extension seen stay.
    pub fn upsert_file(&mut self, hash: &str, size: i64, name: &str, ext: &str, now: &str)
        requires
            old(self).wf(),
            old(self).files@.len() < i64::MAX,
        ensures
            final(self).wf(),
            final(self).devices == old(self).devices,
            final(self).locations == old(self).locations,
            final(self).next_location_id == old(self).next_location_id,
            file_upserted(old(self).files@, final(self).files@, hash@, size, name@, ext@, now@),
    {
        if self.find_file(hash).is_some() {
            return;
        }
        self.files.push(
            FileRecord {
                blake3_hash: hash.to_owned(),
                file_size: size,
                representative_name: name.to_owned(),
                extension: ext.to_owned(),
                created_at: now.to_owned(),
            },
        );
        assert(self.files@.drop_last() =~= old(self).files@);
    }

    /// Where the record of content `hash` stands.
    pub fn find_file(&self, hash: &str) -> (r: Option<usize>)
        ensures
            match r {
                Some(i) => i < self.files@.len() && self.files@[i as int].blake3_hash@ == hash@,
                None => !has_record(self.files@, hash@),
            },
    {
        let mut i: usize = 0;
        while i < self.files.len()
            invariant
                i <= self.files@.len(),
                forall|k: int| 0 <= k < i ==> (#[trigger] self.files@[k]).blake3_hash@ != hash@,
            decreases self.files@.len() - i,
        {
            if same_text(self.files[i].blake3_hash.as_str(), hash) {
                return Some(i);
            }
            i = i + 1;
        }
        None
    }

    /// Where the device with identity `id` stands.
    pub fn find_device(&self, id: &str) -> (r: Option<usize>)
        ensures
            match r {
                Some(i) => i < self.devices@.len() && self.devices@[i as int].id@ == id@,
                None => forall|k: int| 0 <= k < self.devices@.len() ==> (#[trigger] self.devices@[k]).id@ != id@,
            },
    {
        let mut i: usize = 0;
        while i < self.devices.len()
            invariant
                i <= self.devices@.len(),
                forall|k: int| 0 <= k < i ==> (#[trigger] self.devices@[k]).id@ != id@,
            decreases self.devices@.len() - i,
        {
            if same_text(self.devices[i].id.as_str(), id) {
                return Some(i);
            }
            i = i + 1;
        }
        None
    }

    /// Records a detected volume. A known one gets its label, mount point and
    /// capacities refreshed and `now` as last seen; its tier, removable flag
    /// and first sighting stay. A new one starts without a tier.
    pub fn upsert_device(&mut self, disk: &DetectedDisk, now: &str)
        requires
            old(self).wf(),
            old(self).devices@.len() < i64::MAX,
        ensures
            final(self).wf(),
            final(self).files == old(self).files,
            final(self).locations == old(self).locations,
            final(self).next_location_id == old(self).next_location_id,
            match old(self).find_device_spec(disk.id@) {
                Some(i) => {
                    &&& final(self).devices@.len() == old(self).devices@.len()
                    &&& forall|k: int| 0 <= k < old(self).devices@.len() && k != i
                        ==> final(self).devices@[k] == old(self).devices@[k]
                    &&& final(self).devices@[i].id == old(self).devices@[i].id
                    &&& final(self).devices@[i].label@ == disk.label@
                    &&& final(self).devices@[i].mount_point@ == disk.mount_point@
                    &&& final(self).devices@[i].total_bytes == disk.total_bytes
                    &&& final(self).devices@[i].available_bytes == disk.available_bytes
                    &&& final(self).devices@[i].is_removable == old(self).devices@[i].is_removable
                    &&& final(self).devices@[i].device_type == old(self).devices@[i].device_type
                    &&& final(self).devices@[i].first_seen == old(self).devices@[i].first_seen
                    &&& final(self).devices@[i].last_seen@ == now@
                },
                None => {
                    &&& final(self).devices@.drop_last() == old(self).devices@
                    &&& final(self).devices@.len() == old(self).devices@.len() + 1
                    &&& final(self).devices@.last().id@ == disk.id@
                    &&& final(self).devices@.last().label@ == disk.label@
                    &&& final(self).devices@.last().mount_point@ == disk.mount_point@
                    &&& final(self).devices@.last().device_type@.len() == 0
                    &&& final(self).devices@.last().total_bytes == disk.total_bytes
                    &&& final(self).devices@.last().available_bytes == disk.available_bytes
                    &&& final(self).devices@.last().is_removable == disk.is_removable
                    &&& final(self).devices@.last().first_seen@ == now@
                    &&& final(self).devices@.last().last_seen@ == now@
                },
            },
    {
        match self.find_device(disk.id.as_str()) {
            Some(i) => {
                let old_dev = self.devices[i].duplicate();
                let d = StorageDevice {
                    id: old_dev.id,
                    label: disk.label.clone(),
                    mount_point: disk.mount_point.clone(),
                    device_type: old_dev.device_type,
                    total_bytes: disk.total_bytes,
                    available_bytes: disk.available_bytes,
                    is_removable: old_dev.is_removable,
                    first_seen: old_dev.first_seen,
                    last_seen: now.to_owned(),
                };
                self.devices.set(i, d);
                proof {
                    old(self).lemma_find_device_spec(disk.id@);
                }
                assert forall|a: int, b: int| 0 <= a < b < self.devices@.len() implies
                    self.devices@[a].id@ != self.devices@[b].id@ by {
                    assert(old(self).wf());
                }
            },
            None => {
                self.devices.push(
                    StorageDevice {
                        id: disk.id.clone(),
                        label: disk.label.clone(),
                        mount_point: disk.mount_point.clone(),
                        device_type: String::new(),
                        total_bytes: disk.total_bytes,
                        available_bytes: disk.available_bytes,
                        is_removable: disk.is_removable,
                        first_seen: now.to_owned(),
                        last_seen: now.to_owned(),
                    },
                );
                proof {
                    old(self).lemma_find_device_spec(disk.id@);
                }
                assert(self.devices@.drop_last() =~= old(self).devices@);
                assert forall|a: int, b: int| 0 <= a < b < self.devices@.len() implies
                    self.devices@[a].id@ != self.devices@[b].id@ by {
                    if b == self.devices@.len() - 1 {
                        assert(old(self).devices@[a] == self.devices@[a]);
                    } else {
                        assert(old(self).wf());
                    }
                }
            },
        }
    }

    /// The index of the device with identity `id`, if there is one.
    pub open spec fn find_device_spec(&self, id: Seq<char>) -> Option<int> {
        if exists|k: int| 0 <= k < self.devices@.len() && (#[trigger] self.devices@[k]).id@ == id {
            Some(choose|k: int| 0 <= k < self.devices@.len() && (#[trigger] self.devices@[k]).id@ == id)
        } else {
            None
        }
    }

    proof fn lemma_find_device_spec(&self, id: Seq<char>)
        requires
            self.wf(),
        ensures
            match self.find_device_spec(id) {
                Some(i) => 0 <= i < self.devices@.len() && self.devices@[i].id@ == id
                    && forall|k: int| 0 <= k < self.devices@.len() && (#[trigger] self.devices@[k]).id@ == id ==> k == i,
                None => forall|k: int| 0 <= k < self.devices@.len() ==> (#[trigger] self.devices@[k]).id@ != id,
            },
    {
    }

    /// Assigns a tier to the device with identity `device_id`; nothing changes
    /// where there is none.
    pub fn set_device_type(&mut self, device_id: &str, device_type: &str)
        requires
            old(self).wf(),
        ensures
            final(self).wf(),
            final(self).files == old(self).files,
            final(self).locations == old(self).locations,
            final(self).next_location_id == old(self).next_location_id,
            final(self).devices@.len() == old(self).devices@.len(),
            forall|k: int| 0 <= k < old(self).devices@.len() ==> {
                let (o, n) = (old(self).devices@[k], #[trigger] final(self).devices@[k]);
                if o.id@ == device_id@ {
                    n.device_type@ == device_type@ && n.id == o.id && n.label == o.label
                        && n.mount_point == o.mount_point && n.total_bytes == o.total_bytes
                        && n.available_bytes == o.available_bytes && n.is_removable == o.is_removable
                        && n.first_seen == o.first_seen && n.last_seen == o.last_seen
                } else {
                    n == o
                }
            },
    {
        match self.find_device(device_id) {
            Some(i) => {
                let mut d = self.devices[i].duplicate();
                d.device_type = device_type.to_owned();
                self.devices.set(i, d);
                assert forall|a: int, b: int| 0 <= a < b < self.devices@.len() implies
                    self.devices@[a].id@ != self.devices@[b].id@ by {
                    assert(old(self).wf());
                }
            },
            None => {},
        }
    }

    /// The device mounted at `mount_point`, the first such where several were.
    pub fn get_device_by_mount(&self, mount_point: &str) -> (r: Option<StorageDevice>)
        ensures
            match r {
                Some(d) => exists|i: int| 0 <= i < self.devices@.len() && self.devices@[i] == d
                    && d.mount_point@ == mount_point@,
                None => forall|k: int| 0 <= k < self.devices@.len()
                    ==> (#[trigger] self.devices@[k]).mount_point@ != mount_point@,
            },
    {
        let mut i: usize = 0;
        while i < self.devices.len()
            invariant
                i <= self.devices@.len(),
                forall|k: int| 0 <= k < i ==> (#[trigger] self.devices@[k]).mount_point@ != mount_point@,
            decreases self.devices@.len() - i,
        {
            if same_text(self.devices[i].mount_point.as_str(), mount_point) {
                return Some(self.devices[i].duplicate());
            }
            i = i + 1;
        }
        None
    }

    /// Every known device, the one seen last first.
    pub fn get_all_devices(&self) -> (r: Vec<StorageDevice>)
        ensures
            listed_once(r@, self.devices@, |a: StorageDevice, b: StorageDevice| a == b),
            forall|a: int, b: int| 0 <= a < b < r@.len() ==> !text_lt(r@[a].last_seen@, r@[b].last_seen@),
    {
        let mut keyed: Vec<(String, usize)> = Vec::new();
        let mut i: usize = 0;
        while i < self.devices.len()
            invariant
                i <= self.devices@.len(),
                keyed@.len() == i,
                forall|k: int| 0 <= k < i ==> (#[trigger] keyed@[k]).1 == k && keyed@[k].0@ == self.devices@[k].last_seen@,
            decreases self.devices@.len() - i,
        {
            keyed.push((self.devices[i].last_seen.clone(), i));
            i = i + 1;
        }
        let sorted = sort_text(&keyed);
        proof {
            lemma_reordered_positions(keyed@, sorted@);
        }
        let n = sorted.len();
        let mut out: Vec<StorageDevice> = Vec::new();
        let mut m: usize = 0;
        while m < n
            invariant
                n == sorted@.len(),
                n == keyed@.len(),
                n == self.devices@.len(),
                m <= n,
                out@.len() == m,
                text_ascending(sorted@),
                forall|k: int| 0 <= k < keyed@.len() ==> (#[trigger] keyed@[k]).1 == k && keyed@[k].0@ == self.devices@[k].last_seen@,
                forall|q: int| 0 <= q < sorted@.len() ==> (#[trigger] sorted@[q]).1 < keyed@.len()
                    && sorted@[q] == keyed@[sorted@[q].1 as int],
                forall|q: int| 0 <= q < m ==> #[trigger] out@[q] == self.devices@[sorted@[n - 1 - q].1 as int],
            decreases n - m,
        {
            let at = sorted[n - 1 - m].1;
            out.push(self.devices[at].duplicate());
            m = m + 1;
        }
        let ghost rev = Seq::new(n as nat, |q: int| sorted@[n - 1 - q]);
        proof {
            assert forall|j: int| 0 <= j < self.devices@.len() implies #[trigger] position_listed(rev, j) by {
                assert(sorted@.contains(keyed@[j]));
                let q = choose|q: int| 0 <= q < sorted@.len() && sorted@[q] == keyed@[j];
                assert(rev[n - 1 - q] == sorted@[q]);
            }
            let rel = |a: StorageDevice, b: StorageDevice| a == b;
            assert forall|q: int| 0 <= q < out@.len() implies rel(#[trigger] out@[q], self.devices@[rev[q].1 as int]) by {}
            lemma_listed_once(out@, rev, self.devices@, rel);
        }
        assert forall|a: int, b: int| 0 <= a < b < out@.len() implies !text_lt(out@[a].last_seen@, out@[b].last_seen@) by {
            assert(out@[a].last_seen@ == sorted@[n - 1 - a].0@);
            assert(out@[b].last_seen@ == sorted@[n - 1 - b].0@);
        }
        out
    }

    /// The locations on device `device_id`, in order of path.
    pub fn get_files_on_device(&self, device_id: &str) -> (r: Vec<FileLocation>)
        ensures
            listed_once(r@, self.locations@.filter(on_device(device_id@)), |a: FileLocation, b: FileLocation| a == b),
            forall|a: int, b: int| 0 <= a < b < r@.len() ==> !text_lt(r@[b].file_path@, r@[a].file_path@),
    {
        let on = self.locations_on(device_id);
        let mut keyed: Vec<(String, usize)> = Vec::new();
        let mut i: usize = 0;
        while i < on.len()
            invariant
                i <= on@.len(),
                keyed@.len() == i,
                forall|k: int| 0 <= k < i ==> (#[trigger] keyed@[k]).1 == k && keyed@[k].0@ == on@[k].file_path@,
            decreases on@.len() - i,
        {
            keyed.push((on[i].file_path.clone(), i));
            i = i + 1;
        }
        let sorted = sort_text(&keyed);
        proof {
            lemma_reordered_positions(keyed@, sorted@);
        }
        let n = sorted.len();
        let mut out: Vec<FileLocation> = Vec::new();
        let mut m: usize = 0;
        while m < n
            invariant
                n == sorted@.len(),
                n == keyed@.len(),
                n == on@.len(),
                m <= n,
                out@.len() == m,
                text_ascending(sorted@),
                forall|k: int| 0 <= k < keyed@.len() ==> (#[trigger] keyed@[k]).1 == k && keyed@[k].0@ == on@[k].file_path@,
                forall|q: int| 0 <= q < sorted@.len() ==> (#[trigger] sorted@[q]).1 < keyed@.len()
                    && sorted@[q] == keyed@[sorted@[q].1 as int],
                forall|q: int| 0 <= q < m ==> #[trigger] out@[q] == on@[sorted@[q].1 as int],
            decreases n - m,
        {
            let at = sorted[m].1;
            out.push(on[at].duplicate());
            m = m + 1;
        }
        proof {
            assert forall|j: int| 0 <= j < on@.len() implies #[trigger] position_listed(sorted@, j) by {
                assert(sorted@.contains(keyed@[j]));
                let q = choose|q: int| 0 <= q < sorted@.len() && sorted@[q] == keyed@[j];
            }
            let rel = |a: FileLocation, b: FileLocation| a == b;
            assert forall|q: int| 0 <= q < out@.len() implies rel(#[trigger] out@[q], on@[sorted@[q].1 as int]) by {}
            lemma_listed_once(out@, sorted@, on@, rel);
        }
        assert forall|a: int, b: int| 0 <= a < b < out@.len() implies !text_lt(out@[b].file_path@, out@[a].file_path@) by {
            assert(out@[a].file_path@ == sorted@[a].0@);
            assert(out@[b].file_path@ == sorted@[b].0@);
        }
        out
    }

    /// The locations on device `device_id`, in store order.
    fn locations_on(&self, device_id: &str) -> (r: Vec<FileLocation>)
        ensures
            r@ == self.locations@.filter(on_device(device_id@)),
    {
        let mut out: Vec<FileLocation> = Vec::new();
        let mut i: usize = 0;
        while i < self.locations.len()
            invariant
                i <= self.locations@.len(),
                out@ == self.locations@.subrange(0, i as int).filter(on_device(device_id@)),
            decreases self.locations@.len() - i,
        {
            proof {
                reveal(Seq::filter);
                assert(self.locations@.subrange(0, i + 1).drop_last() =~= self.locations@.subrange(0, i as int));
            }
            if same_text(self.locations[i].device_id.as_str(), device_id) {
                out.push(self.locations[i].duplicate());
            }
            i = i + 1;
        }
        assert(self.locations@.subrange(0, i as int) =~= self.locations@);
        out
    }

    /// The locations that hold content `hash`, in store order.
    pub fn get_file_locations(&self, hash: &str) -> (r: Vec<FileLocation>)
        ensures
            r@ == self.locations@.filter(holds_hash(hash@)),
    {
        let mut out: Vec<FileLocation> = Vec::new();
        let mut i: usize = 0;
        while i < self.locations.len()
            invariant
                i <= self.locations@.len(),
                out@ == self.locations@.subrange(0, i as int).filter(holds_hash(hash@)),
            decreases self.locations@.len() - i,
        {
            proof {
                reveal(Seq::filter);
                assert(self.locations@.subrange(0, i + 1).drop_last() =~= self.locations@.subrange(0, i as int));
            }
            if same_text(self.locations[i].blake3_hash.as_str(), hash) {
                out.push(self.locations[i].duplicate());
            }
            i = i + 1;
        }
        assert(self.locations@.subrange(0, i as int) =~= self.locations@);
        out
    }

    /// Removes every location on `device_id` whose path starts with
    /// `path_prefix`, taken as literal text, and is not among `seen_paths`;
    /// returns how many were removed.
    pub fn remove_stale_locations(&mut self, device_id: &str, path_prefix: &str, seen_paths: &Vec<String>) -> (r: u64)
        requires
            old(self).wf(),
        ensures
            final(self).wf(),
            final(self).devices == old(self).devices,
            final(self).files == old(self).files,
            final(self).next_location_id == old(self).next_location_id,
            final(self).locations@ == old(self).locations@.filter(
                kept_after_scan(device_id@, path_prefix@, seen_paths@),
            ),
            r == old(self).locations@.len() - final(self).locations@.len(),
    {
        let mut kept: Vec<FileLocation> = Vec::new();
        let mut i: usize = 0;
        while i < self.locations.len()
            invariant
                *self == *old(self),
                self.wf(),
                i <= self.locations@.len(),
                kept@.len() <= i,
                kept@ == self.locations@.subrange(0, i as int).filter(kept_after_scan(device_id@, path_prefix@, seen_paths@)),
                forall|k: int| 0 <= k < kept@.len() ==> exists|j: int| 0 <= j < i && #[trigger] kept@[k] == self.locations@[j],
                forall|a: int, b: int| 0 <= a < b < kept@.len() ==> !at_place(kept@[a], kept@[b].device_id@, kept@[b].file_path@),
            decreases self.locations@.len() - i,
        {
            proof {
                reveal(Seq::filter);
                assert(self.locations@.subrange(0, i + 1).drop_last() =~= self.locations@.subrange(0, i as int));
            }
            let l = &self.locations[i];
            let stale = same_text(l.device_id.as_str(), device_id) && starts_with(l.file_path.as_str(), path_prefix)
                && !contains_text(seen_paths, l.file_path.as_str());
            assert(self.locations@.subrange(0, i + 1).last() == self.locations@[i as int]);
            assert(kept_after_scan(device_id@, path_prefix@, seen_paths@)(self.locations@[i as int]) == !stale);
            if !stale {
                let ghost before = kept@;
                kept.push(l.duplicate());
                proof {
                    assert forall|k: int| 0 <= k < kept@.len() implies exists|j: int| 0 <= j < i + 1 && #[trigger] kept@[k] == self.locations@[j] by {
                        if k == kept@.len() - 1 {
                            assert(kept@[k] == self.locations@[i as int]);
                        } else {
                            assert(kept@[k] == before[k]);
                        }
                    }
                    assert forall|a: int, b: int| 0 <= a < b < kept@.len() implies !at_place(kept@[a], kept@[b].device_id@, kept@[b].file_path@) by {
                        if b == kept@.len() - 1 {
                            assert(kept@[a] == before[a]);
                            let j = choose|j: int| 0 <= j < i && before[a] == self.locations@[j];
                            assert(!at_place(self.locations@[j], self.locations@[i as int].device_id@, self.locations@[i as int].file_path@));
                        } else {
                            assert(kept@[a] == before[a] && kept@[b] == before[b]);
                        }
                    }
                }
            }
            i = i + 1;
        }
        assert(self.locations@.subrange(0, i as int) =~= self.locations@);
        let removed = (self.locations.len() - kept.len()) as u64;
        self.locations = kept;
        assert forall|k: int| 0 <= k < self.locations@.len() implies 0 < #[trigger] self.locations@[k].id < self.next_location_id by {
            let j = choose|j: int| 0 <= j < old(self).locations@.len() && self.locations@[k] == old(self).locations@[j];
            assert(old(self).wf());
        }
        removed
    }

    /// Removes every content record that no location holds; returns how many
    /// were removed.
    pub fn cleanup_orphaned_files(&mut self) -> (r: u64)
        requires
            old(self).wf(),
        ensures
            final(self).wf(),
            final(self).devices == old(self).devices,
            final(self).locations == old(self).locations,
            final(self).next_location_id == old(self).next_location_id,
            final(self).files@ == old(self).files@.filter(referenced_by(old(self).locations@)),
            r == old(self).files@.len() - final(self).files@.len(),
    {
        let mut kept: Vec<FileRecord> = Vec::new();
        let mut i: usize = 0;
        while i < self.files.len()
            invariant
                *self == *old(self),
                self.wf(),
                i <= self.files@.len(),
                kept@.len() <= i,
                kept@ == self.files@.subrange(0, i as int).filter(referenced_by(self.locations@)),
                forall|k: int| 0 <= k < kept@.len() ==> exists|j: int| 0 <= j < i && #[trigger] kept@[k] == self.files@[j],
                forall|a: int, b: int| 0 <= a < b < kept@.len() ==> kept@[a].blake3_hash@ != kept@[b].blake3_hash@,
            decreases self.files@.len() - i,
        {
            proof {
                reveal(Seq::filter);
                assert(self.files@.subrange(0, i + 1).drop_last() =~= self.files@.subrange(0, i as int));
            }
            let used = self.is_hash_referenced(self.files[i].blake3_hash.as_str());
            assert(self.files@.subrange(0, i + 1).last() == self.files@[i as int]);
            assert(referenced_by(self.locations@)(self.files@[i as int]) == used);
            if used {
                let ghost before = kept@;
                let f = &self.files[i];
                kept.push(FileRecord {
                    blake3_hash: f.blake3_hash.clone(),
                    file_size: f.file_size,
                    representative_name: f.representative_name.clone(),
                    extension: f.extension.clone(),
                    created_at: f.created_at.clone(),
                });
                proof {
                    assert forall|k: int| 0 <= k < kept@.len() implies exists|j: int| 0 <= j < i + 1 && #[trigger] kept@[k] == self.files@[j] by {
                        if k == kept@.len() - 1 {
                            assert(kept@[k] == self.files@[i as int]);
                        } else {
                            assert(kept@[k] == before[k]);
                        }
                    }
                    assert forall|a: int, b: int| 0 <= a < b < kept@.len() implies kept@[a].blake3_hash@ != kept@[b].blake3_hash@ by {
                        if b == kept@.len() - 1 {
                            assert(kept@[a] == before[a]);
                            let j = choose|j: int| 0 <= j < i && before[a] == self.files@[j];
                            assert(self.files@[j].blake3_hash@ != self.files@[i as int].blake3_hash@);
                        } else {
                            assert(kept@[a] == before[a] && kept@[b] == before[b]);
                        }
                    }
                }
            }
            i = i + 1;
        }
        assert(self.files@.subrange(0, i as int) =~= self.files@);
        let removed = (self.files.len() - kept.len()) as u64;
        self.files = kept;
        removed
    }

    /// Whether some location holds content `hash`.
    pub fn is_hash_referenced(&self, hash: &str) -> (r: bool)
        ensures
            r == is_referenced(self.locations@, hash@),
    {
        let mut i: usize = 0;
        while i < self.locations.len()
            invariant
                i <= self.locations@.len(),
                forall|k: int| 0 <= k < i ==> (#[trigger] self.locations@[k]).blake3_hash@ != hash@,
            decreases self.locations@.len() - i,
        {
            if same_text(self.locations[i].blake3_hash.as_str(), hash) {
                return true;
            }
            i = i + 1;
        }
        false
    }
}

} // verus!

verus! {

/// Upserting the same location twice leaves exactly one entry for its
/// (device, path): it holds the values of the second upsert, with the second
/// upsert's time as its verification time, and the second upsert adds no
/// entry.
pub proof fn lemma_upsert_location_twice(
    s0: ContentStore,
    s1: ContentStore,
    s2: ContentStore,
    hash: Seq<char>,
    device: Seq<char>,
    path: Seq<char>,
    name: Seq<char>,
    size: i64,
    modified: Option<Seq<char>>,
    mode: Seq<char>,
    first_time: Seq<char>,
    second_time: Seq<char>,
)
    requires
        s0.wf(),
        s1.wf(),
        s2.wf(),
        location_upserted(s0.locations@, s1.locations@, s0.next_location_id, s1.next_location_id,
            hash, device, path, name, size, modified, mode, first_time),
        location_upserted(s1.locations@, s2.locations@, s1.next_location_id, s2.next_location_id,
            hash, device, path, name, size, modified, mode, second_time),
    ensures
        s2.locations@.len() == s1.locations@.len(),
        s2.next_location_id == s1.next_location_id,
        exists|i: int| 0 <= i < s2.locations@.len()
            && location_holds(s2.locations@[i], hash, device, path, name, size, modified, mode, second_time)
            && forall|j: int| 0 <= j < s2.locations@.len() && j != i ==> !at_place(#[trigger] s2.locations@[j], device, path),
{
    let i: int = if has_place(s0.locations@, device, path) {
        choose|i: int| 0 <= i < s0.locations@.len() && at_place(#[trigger] s0.locations@[i], device, path)
    } else {
        s0.locations@.len() as int
    };
    assert(at_place(s1.locations@[i], device, path));
    assert(has_place(s1.locations@, device, path));
    assert(location_holds(s2.locations@[i], hash, device, path, name, size, modified, mode, second_time));
    assert forall|j: int| 0 <= j < s2.locations@.len() && j != i implies !at_place(#[trigger] s2.locations@[j], device, path) by {
        if j < i {
            assert(!at_place(s2.locations@[j], s2.locations@[i].device_id@, s2.locations@[i].file_path@));
        } else {
            assert(!at_place(s2.locations@[i], s2.locations@[j].device_id@, s2.locations@[j].file_path@));
        }
    }
}

/// After a scan of `prefix` on `device` that saw `seen`: a location stays
/// exactly when it is not stale, that is when it lies on another device,
/// outside the prefix, or was seen; and after orphan cleanup a content record
/// stays exactly when some remaining location still holds it.
pub proof fn lemma_reconcile_outcome(
    s0: ContentStore,
    device: Seq<char>,
    prefix: Seq<char>,
    seen: Seq<String>,
    locations: Seq<FileLocation>,
    files: Seq<FileRecord>,
)
    requires
        locations == s0.locations@.filter(kept_after_scan(device, prefix, seen)),
        files == s0.files@.filter(referenced_by(locations)),
    ensures
        forall|i: int| 0 <= i < s0.locations@.len() ==> (locations.contains(#[trigger] s0.locations@[i])
            <==> !is_stale(s0.locations@[i], device, prefix, seen)),
        forall|l: FileLocation| #[trigger] locations.contains(l) ==> s0.locations@.contains(l),
        forall|i: int| 0 <= i < s0.files@.len() ==> (files.contains(#[trigger] s0.files@[i])
            <==> is_referenced(locations, s0.files@[i].blake3_hash@)),
{
    let keep = kept_after_scan(device, prefix, seen);
    let used = referenced_by(locations);
    s0.locations@.filter_lemma(keep);
    s0.files@.filter_lemma(used);
    assert forall|l: FileLocation| #[trigger] locations.contains(l) implies s0.locations@.contains(l) by {
        s0.locations@.lemma_filter_contains_rev(keep, l);
    }
    assert forall|i: int| 0 <= i < s0.locations@.len() implies (locations.contains(#[trigger] s0.locations@[i])
        <==> !is_stale(s0.locations@[i], device, prefix, seen)) by {
        if locations.contains(s0.locations@[i]) {
            let k = choose|k: int| 0 <= k < locations.len() && locations[k] == s0.locations@[i];
            assert(keep(locations[k]));
        }
        if keep(s0.locations@[i]) {
            assert(locations.contains(s0.locations@[i]));
        }
    }
    assert forall|i: int| 0 <= i < s0.files@.len() implies (files.contains(#[trigger] s0.files@[i])
        <==> is_referenced(locations, s0.files@[i].blake3_hash@)) by {
        if files.contains(s0.files@[i]) {
            let k = choose|k: int| 0 <= k < files.len() && files[k] == s0.files@[i];
            assert(used(files[k]));
        }
        if used(s0.files@[i]) {
            assert(files.contains(s0.files@[i]));
        }
    }
}

} // verus!
