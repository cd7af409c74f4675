//! The scan of a directory tree as a state machine. The caller walks the
//! tree, reads metadata and hashes file contents; the scanner decides what to
//! do with each file, updates the store, and says which events to report.

use vstd::prelude::*;
use crate::clock::{lower_of, modification_text, utc_text};
use crate::devices::{device_for_path, owns_path};
use crate::model::{AppError, DetectedDisk, ScanEvent};
use crate::path::{extension_of, file_name, file_name_of, lower_extension, relative_path, relative_to};
use crate::store::{ContentStore, at_place, has_place, kept_after_scan, location_upserted, opt_view, referenced_by};
use crate::text::{decimal, push_decimal, same_text};

verus! {

/// Files larger than this many bytes are not hashed by a quick scan.
pub const QUICK_HASH_THRESHOLD: i64 = 2147483648;

/// A quick scan hashes a file of this size; a larger one is deferred.
pub open spec fn hashed_when_quick(size: int) -> bool {
    0 <= size <= QUICK_HASH_THRESHOLD
}

/// Progress is reported on every fiftieth file and on the last one.
pub open spec fn progress_due(scanned: int, total: int) -> bool {
    scanned % 50 == 0 || scanned == total
}

/// The identity under which a deferred file is recorded:
/// `deferred:<size>:<modification time, or nothing>`.
pub open spec fn deferred_identity(size: int, modified: Option<Seq<char>>) -> Seq<char> {
    "deferred:"@ + decimal(size) + ":"@ + match modified {
        Some(t) => t,
        None => Seq::empty(),
    }
}

/// What the caller does next.
pub enum ScanStep {
    /// Read the size and modification time of this file, then call
    /// `metadata_read`.
    ReadMetadata { path: String },
    /// Hash this file's contents, then call `hash_done`.
    Hash { path: String },
    /// Call `next_file`.
    NextFile,
    /// The scan is over.
    Done,
}

/// Where a scan stands.
#[derive(PartialEq, Eq, Structural, Clone, Copy, Debug)]
pub enum ScanPhase {
    Enumerating,
    Files,
    AwaitMetadata,
    AwaitHash,
    Ended,
}

/// What the caller read of a file.
pub struct FileMeta {
    pub size: i64,
    /// Seconds since the Unix epoch, where the time was readable.
    pub modified_secs: Option<i64>,
}

/// One running scan.
pub struct Scanner {
    pub device_id: String,
    pub mount_point: String,
    pub mode: String,
    /// The scanned directory relative to the mount point.
    pub scan_prefix: String,
    pub files: Vec<String>,
    /// How many files have been taken up.
    pub next: usize,
    pub scanned: u64,
    pub hashed: u64,
    pub added: u64,
    pub seen_paths: Vec<String>,
    pub phase: ScanPhase,
    /// The file under way: its path, its path on the device, name,
    /// extension, size and modification time, and whether it is new there.
    pub cur_path: String,
    pub cur_rel: String,
    pub cur_name: String,
    pub cur_ext: String,
    pub cur_size: i64,
    pub cur_modified: Option<String>,
    pub cur_is_new: bool,
}

impl Scanner {
    /// The counters agree with the files taken up.
    pub open spec fn wf(&self) -> bool {
        &&& self.next <= self.files@.len()
        &&& self.scanned == self.next
        &&& self.hashed <= self.scanned
        &&& self.added <= self.scanned
        &&& (self.phase == ScanPhase::AwaitMetadata || self.phase == ScanPhase::AwaitHash) ==> {
            &&& self.next >= 1
            &&& self.hashed < self.scanned
            &&& self.added < self.scanned
        }
    }

    /// This scan runs in quick mode.
    pub open spec fn is_quick(&self) -> bool {
        self.mode@ == "quick"@
    }

    /// Resolves the device that holds `target`; fails where none does.
    pub fn new(devices: &Vec<DetectedDisk>, target: &str, mode: &str) -> (r: Result<Scanner, AppError>)
        ensures
            match r {
                Ok(s) => {
                    &&& s.wf()
                    &&& s.phase == ScanPhase::Enumerating
                    &&& s.files@.len() == 0
                    &&& s.mode@ == mode@
                    &&& s.seen_paths@.len() == 0
                    &&& exists|i: int| owns_path(devices@, target@, i) && s.device_id@ == devices@[i].id@
                        && s.mount_point@ == devices@[i].mount_point@
                    &&& s.scan_prefix@ == relative_to(target@, s.mount_point@)
                },
                Err(e) => {
                    &&& forall|k: int| 0 <= k < devices@.len()
                        ==> !crate::text::is_prefix((#[trigger] devices@[k]).mount_point@, target@)
                    &&& e matches AppError::General(m) && m@ == "No device found for path: "@ + target@
                },
            },
    {
        match device_for_path(devices, target) {
            None => {
                let mut m = String::from_str("No device found for path: ");
                m.append(target);
                Err(AppError::General(m))
            },
            Some((device_id, mount_point)) => {
                let scan_prefix = relative_path(target, mount_point.as_str());
                Ok(Scanner {
                    device_id,
                    mount_point,
                    mode: mode.to_owned(),
                    scan_prefix,
                    files: Vec::new(),
                    next: 0,
                    scanned: 0,
                    hashed: 0,
                    added: 0,
                    seen_paths: Vec::new(),
                    phase: ScanPhase::Enumerating,
                    cur_path: String::new(),
                    cur_rel: String::new(),
                    cur_name: String::new(),
                    cur_ext: String::new(),
                    cur_size: 0,
                    cur_modified: None,
                    cur_is_new: false,
                })
            },
        }
    }

    /// Takes the regular files found under the target; reports their count.
    pub fn begin(&mut self, files: Vec<String>) -> (r: ScanEvent)
        requires
            old(self).wf(),
            old(self).phase == ScanPhase::Enumerating,
        ensures
            final(self).wf(),
            final(self).phase == ScanPhase::Files,
            final(self).files@ == files@,
            final(self).next == 0,
            final(self).device_id == old(self).device_id,
            final(self).mount_point == old(self).mount_point,
            final(self).mode == old(self).mode,
            final(self).scan_prefix == old(self).scan_prefix,
            final(self).seen_paths == old(self).seen_paths,
            r == (ScanEvent::Started { total_files: files@.len() as u64 }),
    {
        let total = files.len() as u64;
        self.files = files;
        self.next = 0;
        self.scanned = 0;
        self.hashed = 0;
        self.added = 0;
        self.phase = ScanPhase::Files;
        ScanEvent::Started { total_files: total }
    }

    /// The parts of a scan that stay fixed once it has begun.
    pub open spec fn same_setup(&self, other: &Scanner) -> bool {
        &&& self.device_id == other.device_id
        &&& self.mount_point == other.mount_point
        &&& self.mode == other.mode
        &&& self.scan_prefix == other.scan_prefix
        &&& self.files == other.files
    }

    /// Takes up the next file, or ends the scan. Where `cancelled` is set and
    /// a file remains, the scan ends with `Cancelled` and the store is left as
    /// it is. Once every file is taken up, locations under the scanned
    /// directory that the scan did not see are removed, orphaned content
    /// records with them where any location went, and `Finished` is reported.
    pub fn next_file(&mut self, store: &mut ContentStore, cancelled: bool) -> (r: (Vec<ScanEvent>, ScanStep))
        requires
            old(self).wf(),
            old(self).phase == ScanPhase::Files,
            old(store).wf(),
        ensures
            final(self).wf(),
            final(store).wf(),
            final(self).same_setup(old(self)),
            final(self).seen_paths == old(self).seen_paths,
            final(self).hashed == old(self).hashed,
            final(self).added == old(self).added,
            if old(self).next == old(self).files@.len() {
                let removed = old(store).locations@.len() - final(store).locations@.len();
                &&& final(self).phase == ScanPhase::Ended
                &&& r.1 is Done
                &&& final(self).next == old(self).next
                &&& final(store).devices == old(store).devices
                &&& final(store).locations@ == old(store).locations@.filter(
                    kept_after_scan(old(self).device_id@, old(self).scan_prefix@, old(self).seen_paths@),
                )
                &&& if removed > 0 {
                    final(store).files@ == old(store).files@.filter(referenced_by(final(store).locations@))
                } else {
                    final(store).files == old(store).files
                }
                &&& r.0@ == seq![ScanEvent::Finished {
                    scanned: old(self).scanned,
                    hashed: old(self).hashed,
                    added: old(self).added,
                    removed: removed as u64,
                }]
            } else if cancelled {
                &&& final(self).phase == ScanPhase::Ended
                &&& r.1 is Done
                &&& final(self).next == old(self).next
                &&& *final(store) == *old(store)
                &&& r.0@ == seq![ScanEvent::Cancelled]
            } else {
                let n = old(self).next + 1;
                &&& final(self).phase == ScanPhase::AwaitMetadata
                &&& final(self).next == n
                &&& *final(store) == *old(store)
                &&& (r.1 matches ScanStep::ReadMetadata { path } && path@ == old(self).files@[old(self).next as int]@)
                &&& r.0@ == if progress_due(n, old(self).files@.len() as int) {
                    seq![ScanEvent::Progress { scanned: n as u64, total: old(self).files@.len() as u64 }]
                } else {
                    Seq::empty()
                }
            },
    {
        let total = self.files.len();
        let mut events: Vec<ScanEvent> = Vec::new();
        if self.next == total {
            let removed = store.remove_stale_locations(self.device_id.as_str(), self.scan_prefix.as_str(), &self.seen_paths);
            if removed > 0 {
                store.cleanup_orphaned_files();
            }
            self.phase = ScanPhase::Ended;
            events.push(ScanEvent::Finished { scanned: self.scanned, hashed: self.hashed, added: self.added, removed });
            assert(events@ =~= seq![ScanEvent::Finished {
                scanned: old(self).scanned,
                hashed: old(self).hashed,
                added: old(self).added,
                removed: removed,
            }]);
            return (events, ScanStep::Done);
        }
        if cancelled {
            self.phase = ScanPhase::Ended;
            events.push(ScanEvent::Cancelled);
            assert(events@ =~= seq![ScanEvent::Cancelled]);
            return (events, ScanStep::Done);
        }
        self.next = self.next + 1;
        self.scanned = self.scanned + 1;
        if self.scanned % 50 == 0 || self.scanned == total as u64 {
            events.push(ScanEvent::Progress { scanned: self.scanned, total: total as u64 });
            assert(events@ =~= seq![ScanEvent::Progress { scanned: self.scanned, total: total as u64 }]);
        } else {
            assert(events@ =~= Seq::<ScanEvent>::empty());
        }
        self.phase = ScanPhase::AwaitMetadata;
        let path = self.files[self.next - 1].clone();
        (events, ScanStep::ReadMetadata { path })
    }

    /// The file taken up last.
    pub open spec fn current_path(&self) -> Seq<char> {
        self.files@[self.next - 1]@
    }

    /// The modification time as the store records it.
    pub open spec fn modified_text(secs: Option<i64>) -> Option<Seq<char>> {
        match secs {
            Some(t) => utc_text(t as int),
            None => None,
        }
    }

    /// The store has room for one more content record and one more location.
    pub open spec fn has_room(store: &ContentStore) -> bool {
        store.next_location_id < i64::MAX && store.files@.len() < i64::MAX
    }

    /// The store already holds this path with this size and modification time.
    pub open spec fn unchanged_in(store: &ContentStore, device: Seq<char>, path: Seq<char>, size: i64, modified: Option<Seq<char>>) -> bool {
        exists|i: int| 0 <= i < store.locations@.len() && at_place(#[trigger] store.locations@[i], device, path)
            && store.locations@[i].file_size == size && opt_view(store.locations@[i].modified_at) == modified
    }

    /// Ends the scan on a store that has no room left.
    fn store_full(&mut self) -> (r: (Vec<ScanEvent>, ScanStep))
        requires
            old(self).wf(),
        ensures
            final(self).wf(),
            final(self).same_setup(old(self)),
            final(self).next == old(self).next,
            final(self).hashed == old(self).hashed,
            final(self).added == old(self).added,
            final(self).seen_paths == old(self).seen_paths,
            final(self).phase == ScanPhase::Ended,
            r.1 is Done,
            r.0@.len() == 1,
            r.0@[0] is Error,
    {
        self.phase = ScanPhase::Ended;
        let mut events: Vec<ScanEvent> = Vec::new();
        events.push(ScanEvent::Error { message: String::from_str("Database error: the store is full") });
        (events, ScanStep::Done)
    }

    /// `path: message`, for a problem with one file.
    fn file_error(path: &str, message: &str) -> (r: ScanEvent)
        ensures
            r matches ScanEvent::Error { message: m } && m@ == path@ + ": "@ + message@,
    {
        let mut m = path.to_owned();
        m.append(": ");
        m.append(message);
        ScanEvent::Error { message: m }
    }

    /// Takes what was read of the current file's metadata. A read failure is
    /// reported and the file skipped. Otherwise its path on the device is
    /// marked as seen; a quick scan then skips a file recorded with the same
    /// size and modification time. A file that is to be hashed is handed back
    /// to the caller; a quick scan records a larger one under its deferred
    /// identity instead.
    pub fn metadata_read(&mut self, store: &mut ContentStore, meta: Result<FileMeta, String>, now: &str) -> (r: (Vec<ScanEvent>, ScanStep))
        requires
            old(self).wf(),
            old(self).phase == ScanPhase::AwaitMetadata,
            old(store).wf(),
        ensures
            final(self).wf(),
            final(store).wf(),
            final(self).same_setup(old(self)),
            final(self).next == old(self).next,
            final(self).hashed == old(self).hashed,
            match meta {
                Err(msg) => {
                    &&& final(self).phase == ScanPhase::Files
                    &&& r.1 is NextFile
                    &&& *final(store) == *old(store)
                    &&& final(self).seen_paths == old(self).seen_paths
                    &&& final(self).added == old(self).added
                    &&& r.0@.len() == 1
                    &&& r.0@[0] matches ScanEvent::Error { message } && message@ == old(self).current_path() + ": "@ + msg@
                },
                Ok(m) => {
                    let path = old(self).current_path();
                    let device = old(self).device_id@;
                    let rel = relative_to(path, old(self).mount_point@);
                    let name = file_name_of(path);
                    let ext = lower_of(extension_of(name));
                    let modified = Scanner::modified_text(m.modified_secs);
                    let is_new = !has_place(old(store).locations@, device, rel);
                    &&& final(self).seen_paths@.len() == old(self).seen_paths@.len() + 1
                    &&& final(self).seen_paths@.drop_last() == old(self).seen_paths@
                    &&& final(self).seen_paths@.last()@ == rel
                    &&& if old(self).is_quick() && Scanner::unchanged_in(old(store), device, rel, m.size, modified) {
                        &&& final(self).phase == ScanPhase::Files
                        &&& r.1 is NextFile
                        &&& r.0@.len() == 0
                        &&& *final(store) == *old(store)
                        &&& final(self).added == old(self).added
                    } else if !old(self).is_quick() || hashed_when_quick(m.size as int) {
                        &&& final(self).phase == ScanPhase::AwaitHash
                        &&& (r.1 matches ScanStep::Hash { path: p } && p@ == path)
                        &&& r.0@.len() == 0
                        &&& *final(store) == *old(store)
                        &&& final(self).added == old(self).added
                        &&& final(self).cur_path@ == path
                        &&& final(self).cur_rel@ == rel
                        &&& final(self).cur_name@ == name
                        &&& final(self).cur_ext@ == ext
                        &&& final(self).cur_size == m.size
                        &&& opt_view(final(self).cur_modified) == modified
                        &&& final(self).cur_is_new == is_new
                    } else if Scanner::has_room(old(store)) {
                        let id = deferred_identity(m.size as int, modified);
                        &&& final(self).phase == ScanPhase::Files
                        &&& r.1 is NextFile
                        &&& r.0@.len() == 0
                        &&& final(store).devices == old(store).devices
                        &&& crate::store::file_upserted(old(store).files@, final(store).files@, id, m.size, name, ext, now@)
                        &&& location_upserted(
                            old(store).locations@,
                            final(store).locations@,
                            old(store).next_location_id,
                            final(store).next_location_id,
                            id,
                            device,
                            rel,
                            name,
                            m.size,
                            modified,
                            "deferred"@,
                            now@,
                        )
                        &&& final(self).added == old(self).added + if is_new { 1int } else { 0int }
                    } else {
                        &&& final(self).phase == ScanPhase::Ended
                        &&& r.1 is Done
                        &&& r.0@.len() == 1
                        &&& r.0@[0] is Error
                    }
                },
            },
    {
        let path = self.files[self.next - 1].clone();
        let m = match meta {
            Err(msg) => {
                self.phase = ScanPhase::Files;
                let mut events: Vec<ScanEvent> = Vec::new();
                events.push(Scanner::file_error(path.as_str(), msg.as_str()));
                return (events, ScanStep::NextFile);
            },
            Ok(m) => m,
        };
        let modified = modification_text(m.modified_secs);
        let rel = relative_path(path.as_str(), self.mount_point.as_str());
        let name = file_name(path.as_str());
        let ext = lower_extension(path.as_str());
        self.seen_paths.push(rel.clone());
        let existing = store.get_existing_location(self.device_id.as_str(), rel.as_str());
        let is_new = existing.is_none();
        let quick = same_text(self.mode.as_str(), "quick");
        if quick {
            match &existing {
                Some(ex) => {
                    let same_time = match (&ex.modified_at, &modified) {
                        (Some(a), Some(b)) => same_text(a.as_str(), b.as_str()),
                        (None, None) => true,
                        _ => false,
                    };
                    if ex.file_size == m.size && same_time {
                        proof {
                            let i = choose|i: int| 0 <= i < store.locations@.len() && store.locations@[i] == *ex
                                && at_place(*ex, self.device_id@, rel@);
                            assert(at_place(store.locations@[i], self.device_id@, rel@));
                        }
                        self.phase = ScanPhase::Files;
                        return (Vec::new(), ScanStep::NextFile);
                    }
                    proof {
                        assert forall|i: int| 0 <= i < store.locations@.len() && at_place(#[trigger] store.locations@[i], self.device_id@, rel@)
                            implies !(store.locations@[i].file_size == m.size && opt_view(store.locations@[i].modified_at) == opt_view(modified)) by {
                            let j = choose|j: int| 0 <= j < store.locations@.len() && store.locations@[j] == *ex
                                && at_place(*ex, self.device_id@, rel@);
                            if i != j {
                                if i < j {
                                    assert(!at_place(store.locations@[i], store.locations@[j].device_id@, store.locations@[j].file_path@));
                                } else {
                                    assert(!at_place(store.locations@[j], store.locations@[i].device_id@, store.locations@[i].file_path@));
                                }
                            }
                        }
                    }
                },
                None => {},
            }
        }
        let should_hash = !quick || (m.size >= 0 && m.size <= QUICK_HASH_THRESHOLD);
        if should_hash {
            self.cur_path = path.clone();
            self.cur_rel = rel;
            self.cur_name = name;
            self.cur_ext = ext;
            self.cur_size = m.size;
            self.cur_modified = modified;
            self.cur_is_new = is_new;
            self.phase = ScanPhase::AwaitHash;
            return (Vec::new(), ScanStep::Hash { path });
        }
        if !(store.next_location_id < i64::MAX && (store.files.len() as u128) < i64::MAX as u128) {
            return self.store_full();
        }
        let mut id = String::from_str("deferred:");
        push_decimal(&mut id, m.size);
        id.append(":");
        match &modified {
            Some(t) => id.append(t.as_str()),
            None => {},
        }
        proof {
            assert(id@ =~= deferred_identity(m.size as int, opt_view(modified)));
        }
        store.upsert_file(id.as_str(), m.size, name.as_str(), ext.as_str(), now);
        store.upsert_location(id.as_str(), self.device_id.as_str(), rel.as_str(), name.as_str(), m.size, &modified, "deferred", now);
        if is_new {
            self.added = self.added + 1;
        }
        self.phase = ScanPhase::Files;
        (Vec::new(), ScanStep::NextFile)
    }

    /// Takes the content hash of the current file, or the reason it could not
    /// be computed. A hash is recorded for the file's path, under the scan's
    /// mode, and reported; a failure is reported and the file skipped.
    pub fn hash_done(&mut self, store: &mut ContentStore, result: Result<String, String>, now: &str) -> (r: (Vec<ScanEvent>, ScanStep))
        requires
            old(self).wf(),
            old(self).phase == ScanPhase::AwaitHash,
            old(store).wf(),
        ensures
            final(self).wf(),
            final(store).wf(),
            final(self).same_setup(old(self)),
            final(self).next == old(self).next,
            final(self).seen_paths == old(self).seen_paths,
            match result {
                Err(msg) => {
                    &&& final(self).phase == ScanPhase::Files
                    &&& r.1 is NextFile
                    &&& *final(store) == *old(store)
                    &&& final(self).hashed == old(self).hashed
                    &&& final(self).added == old(self).added
                    &&& r.0@.len() == 1
                    &&& r.0@[0] matches ScanEvent::Error { message } && message@ == old(self).cur_path@ + ": "@ + msg@
                },
                Ok(hash) => if Scanner::has_room(old(store)) {
                    &&& final(self).phase == ScanPhase::Files
                    &&& r.1 is NextFile
                    &&& final(store).devices == old(store).devices
                    &&& crate::store::file_upserted(
                        old(store).files@,
                        final(store).files@,
                        hash@,
                        old(self).cur_size,
                        old(self).cur_name@,
                        old(self).cur_ext@,
                        now@,
                    )
                    &&& location_upserted(
                        old(store).locations@,
                        final(store).locations@,
                        old(store).next_location_id,
                        final(store).next_location_id,
                        hash@,
                        old(self).device_id@,
                        old(self).cur_rel@,
                        old(self).cur_name@,
                        old(self).cur_size,
                        opt_view(old(self).cur_modified),
                        old(self).mode@,
                        now@,
                    )
                    &&& final(self).hashed == old(self).hashed + 1
                    &&& final(self).added == old(self).added + if old(self).cur_is_new { 1int } else { 0int }
                    &&& r.0@.len() == 1
                    &&& r.0@[0] matches ScanEvent::FileHashed { path, hash: h } && path@ == old(self).cur_rel@ && h@ == hash@
                } else {
                    &&& final(self).phase == ScanPhase::Ended
                    &&& r.1 is Done
                    &&& r.0@.len() == 1
                    &&& r.0@[0] is Error
                },
            },
    {
        let mut events: Vec<ScanEvent> = Vec::new();
        match result {
            Err(msg) => {
                self.phase = ScanPhase::Files;
                events.push(Scanner::file_error(self.cur_path.as_str(), msg.as_str()));
                (events, ScanStep::NextFile)
            },
            Ok(hash) => {
                if !(store.next_location_id < i64::MAX && (store.files.len() as u128) < i64::MAX as u128) {
                    return self.store_full();
                }
                store.upsert_file(hash.as_str(), self.cur_size, self.cur_name.as_str(), self.cur_ext.as_str(), now);
                store.upsert_location(
                    hash.as_str(),
                    self.device_id.as_str(),
                    self.cur_rel.as_str(),
                    self.cur_name.as_str(),
                    self.cur_size,
                    &self.cur_modified,
                    self.mode.as_str(),
                    now,
                );
                self.hashed = self.hashed + 1;
                if self.cur_is_new {
                    self.added = self.added + 1;
                }
                self.phase = ScanPhase::Files;
                events.push(ScanEvent::FileHashed { path: self.cur_rel.clone(), hash });
                (events, ScanStep::NextFile)
            },
        }
    }
}

} // verus!
