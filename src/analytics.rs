//! Read-only queries over the content store: copies by device tier, the
//! backup-safety verdict, duplicate waste and store-wide totals.

use vstd::prelude::*;
use crate::model::{DashboardStats, FileLocation, FileRecord, FileSafety, StorageDevice, WasteCandidate};
use crate::order::{descending, lemma_reordered_positions, sort_desc};
use crate::store::{ContentStore, has_record, holds_hash};
use crate::text::same_text;

verus! {

/// Some device of `devs` has identity `id`.
pub open spec fn known_device(devs: Seq<StorageDevice>, id: Seq<char>) -> bool {
    exists|k: int| 0 <= k < devs.len() && (#[trigger] devs[k]).id@ == id
}

/// The device with identity `id` has tier `tier`.
pub open spec fn has_tier(devs: Seq<StorageDevice>, id: Seq<char>, tier: Seq<char>) -> bool {
    exists|k: int| 0 <= k < devs.len() && (#[trigger] devs[k]).id@ == id && devs[k].device_type@ == tier
}

/// Locations of `hash` on a known device.
pub open spec fn copy_on_known(devs: Seq<StorageDevice>, hash: Seq<char>) -> spec_fn(FileLocation) -> bool {
    |l: FileLocation| l.blake3_hash@ == hash && known_device(devs, l.device_id@)
}

/// Locations of `hash` on a device of tier `tier`.
pub open spec fn copy_on_tier(devs: Seq<StorageDevice>, hash: Seq<char>, tier: Seq<char>) -> spec_fn(FileLocation) -> bool {
    |l: FileLocation| l.blake3_hash@ == hash && has_tier(devs, l.device_id@, tier)
}

/// Copies of `hash` on known devices.
pub open spec fn total_copies(s: ContentStore, hash: Seq<char>) -> int {
    s.locations@.filter(copy_on_known(s.devices@, hash)).len() as int
}

/// Copies of `hash` on `hot` devices.
pub open spec fn hot_copies(s: ContentStore, hash: Seq<char>) -> int {
    s.locations@.filter(copy_on_tier(s.devices@, hash, "hot"@)).len() as int
}

/// Copies of `hash` on `cold` devices.
pub open spec fn cold_copies(s: ContentStore, hash: Seq<char>) -> int {
    s.locations@.filter(copy_on_tier(s.devices@, hash, "cold"@)).len() as int
}

/// Backed up: at least one cold copy and at least two copies in all.
pub open spec fn is_safe(total: int, cold: int) -> bool {
    cold >= 1 && total >= 2
}

/// Content records with at least one copy that are not backed up.
pub open spec fn unsafe_record(s: ContentStore) -> spec_fn(FileRecord) -> bool {
    |f: FileRecord| total_copies(s, f.blake3_hash@) >= 1
        && !is_safe(total_copies(s, f.blake3_hash@), cold_copies(s, f.blake3_hash@))
}

/// `r` is the safety verdict of record `f` in store `s`.
pub open spec fn safety_of(r: FileSafety, f: FileRecord, s: ContentStore) -> bool {
    let h = f.blake3_hash@;
    &&& r.blake3_hash@ == h
    &&& r.file_size == f.file_size
    &&& r.representative_name@ == f.representative_name@
    &&& r.total_copies == total_copies(s, h)
    &&& r.hot_copies == hot_copies(s, h)
    &&& r.cold_copies == cold_copies(s, h)
    &&& r.is_safe == is_safe(total_copies(s, h), cold_copies(s, h))
    &&& r.locations@ == s.locations@.filter(holds_hash(h))
}

/// `r` holds the safety verdict of each record of `fs` once.
pub open spec fn lists_safety(r: Seq<FileSafety>, fs: Seq<FileRecord>, s: ContentStore) -> bool {
    listed_once(r, fs, |x: FileSafety, f: FileRecord| safety_of(x, f, s))
}

/// `r` holds the waste entry of each record of `fs` once.
pub open spec fn lists_waste(r: Seq<WasteCandidate>, fs: Seq<FileRecord>, s: ContentStore) -> bool {
    listed_once(r, fs, |x: WasteCandidate, f: FileRecord| waste_of(x, f, s))
}

/// `x` clamped into the range of `i64`.
pub open spec fn clamp_i64(x: int) -> int {
    if x > i64::MAX { i64::MAX as int } else if x < i64::MIN { i64::MIN as int } else { x }
}

/// Number of locations that hold `hash`, on any device.
pub open spec fn copy_count(s: ContentStore, hash: Seq<char>) -> int {
    s.locations@.filter(holds_hash(hash)).len() as int
}

/// Bytes that the copies beyond the first take.
pub open spec fn wasted(size: int, copies: int) -> int {
    clamp_i64(size * (copies - 1))
}

/// Content records held more than `threshold` times.
pub open spec fn over_threshold(s: ContentStore, threshold: i64) -> spec_fn(FileRecord) -> bool {
    |f: FileRecord| copy_count(s, f.blake3_hash@) > threshold
}

/// `w` is the waste entry of record `f` in store `s`.
pub open spec fn waste_of(w: WasteCandidate, f: FileRecord, s: ContentStore) -> bool {
    let h = f.blake3_hash@;
    &&& w.blake3_hash@ == h
    &&& w.file_size == f.file_size
    &&& w.representative_name@ == f.representative_name@
    &&& w.total_copies == copy_count(s, h)
    &&& w.wasted_bytes == wasted(f.file_size as int, copy_count(s, h))
}

/// The sum of the sizes of `files`.
pub open spec fn size_sum(files: Seq<FileRecord>) -> int
    decreases files.len(),
{
    if files.len() == 0 {
        0
    } else {
        size_sum(files.drop_last()) + files.last().file_size
    }
}

/// Each entry of `r` relates to some entry of `fs` and each entry of `fs` to
/// some entry of `r`, and the two have the same length.
pub open spec fn listed_once<A, B>(r: Seq<A>, fs: Seq<B>, rel: spec_fn(A, B) -> bool) -> bool {
    &&& r.len() == fs.len()
    &&& forall|k: int| 0 <= k < r.len() ==> #[trigger] related_to_some(r[k], fs, rel)
    &&& forall|j: int| 0 <= j < fs.len() ==> #[trigger] some_related(r, fs[j], rel)
}

/// `a` relates to some entry of `fs`.
pub open spec fn related_to_some<A, B>(a: A, fs: Seq<B>, rel: spec_fn(A, B) -> bool) -> bool {
    exists|j: int| 0 <= j < fs.len() && #[trigger] rel(a, fs[j])
}

/// Some entry of `r` relates to `b`.
pub open spec fn some_related<A, B>(r: Seq<A>, b: B, rel: spec_fn(A, B) -> bool) -> bool {
    exists|k: int| 0 <= k < r.len() && #[trigger] rel(r[k], b)
}

/// Some entry of `sorted` carries position `j`.
pub open spec fn position_listed<K>(sorted: Seq<(K, usize)>, j: int) -> bool {
    exists|m: int| #![trigger sorted[m]] 0 <= m < sorted.len() && sorted[m].1 == j
}

pub proof fn lemma_listed_once<A, B, K>(out: Seq<A>, sorted: Seq<(K, usize)>, fs: Seq<B>, rel: spec_fn(A, B) -> bool)
    requires
        sorted.len() == fs.len(),
        out.len() == sorted.len(),
        forall|m: int| 0 <= m < sorted.len() ==> (#[trigger] sorted[m]).1 < fs.len(),
        forall|j: int| 0 <= j < fs.len() ==> #[trigger] position_listed(sorted, j),
        forall|m: int| 0 <= m < out.len() ==> rel(#[trigger] out[m], fs[sorted[m].1 as int]),
    ensures
        listed_once(out, fs, rel),
{
    assert forall|k: int| 0 <= k < out.len() implies #[trigger] related_to_some(out[k], fs, rel) by {
        assert(rel(out[k], fs[sorted[k].1 as int]));
    }
    assert forall|j: int| 0 <= j < fs.len() implies #[trigger] some_related(out, fs[j], rel) by {
        assert(position_listed(sorted, j));
        let m = choose|m: int| #![trigger sorted[m]] 0 <= m < sorted.len() && sorted[m].1 == j;
        assert(rel(out[m], fs[sorted[m].1 as int]));
    }
}

/// A copy of a list of locations.
pub fn copy_locations(v: &Vec<FileLocation>) -> (r: Vec<FileLocation>)
    ensures
        r@ == v@,
{
    let mut out: Vec<FileLocation> = Vec::new();
    let mut i: usize = 0;
    while i < v.len()
        invariant
            i <= v@.len(),
            out@ == v@.subrange(0, i as int),
        decreases v@.len() - i,
    {
        out.push(v[i].duplicate());
        i = i + 1;
        assert(out@ =~= v@.subrange(0, i as int));
    }
    assert(v@.subrange(0, i as int) =~= v@);
    out
}

impl FileSafety {
    /// A field-by-field copy.
    pub fn duplicate(&self) -> (r: FileSafety)
        ensures
            r.blake3_hash == self.blake3_hash,
            r.file_size == self.file_size,
            r.representative_name == self.representative_name,
            r.total_copies == self.total_copies,
            r.hot_copies == self.hot_copies,
            r.cold_copies == self.cold_copies,
            r.is_safe == self.is_safe,
            r.locations@ == self.locations@,
    {
        FileSafety {
            blake3_hash: self.blake3_hash.clone(),
            file_size: self.file_size,
            representative_name: self.representative_name.clone(),
            total_copies: self.total_copies,
            hot_copies: self.hot_copies,
            cold_copies: self.cold_copies,
            is_safe: self.is_safe,
            locations: copy_locations(&self.locations),
        }
    }
}

impl WasteCandidate {
    /// A field-by-field copy.
    pub fn duplicate(&self) -> (r: WasteCandidate)
        ensures
            r == *self,
    {
        WasteCandidate {
            blake3_hash: self.blake3_hash.clone(),
            file_size: self.file_size,
            representative_name: self.representative_name.clone(),
            total_copies: self.total_copies,
            wasted_bytes: self.wasted_bytes,
        }
    }
}

/// Whether a hash with these copy counts is backed up.
pub fn safe_verdict(total_copies: i64, cold_copies: i64) -> (r: bool)
    ensures
        r == is_safe(total_copies as int, cold_copies as int),
{
    cold_copies >= 1 && total_copies >= 2
}

/// Bytes wasted by `copies` copies of a file of `size` bytes, clamped into
/// the range of `i64`.
pub fn wasted_bytes(size: i64, copies: i64) -> (r: i64)
    ensures
        r == wasted(size as int, copies as int),
{
    let extra: i128 = copies as i128 - 1;
    assert(-0x8000_0000_0000_0001 <= extra < 0x8000_0000_0000_0000);
    assert(-0x8000_0000_0000_0000 <= size < 0x8000_0000_0000_0000);
    assert(-0x4000_0000_0000_0000_8000_0000_0000_0000 <= size as int * extra <= 0x4000_0000_0000_0000_8000_0000_0000_0000) by (nonlinear_arith)
        requires
            -0x8000_0000_0000_0001 <= extra < 0x8000_0000_0000_0000,
            -0x8000_0000_0000_0000 <= size < 0x8000_0000_0000_0000,
    ;
    let w: i128 = size as i128 * extra;
    if w > i64::MAX as i128 {
        i64::MAX
    } else if w < i64::MIN as i128 {
        i64::MIN
    } else {
        w as i64
    }
}

impl ContentStore {
    proof fn lemma_device_unique(&self, d: int)
        requires
            self.wf(),
            0 <= d < self.devices@.len(),
        ensures
            forall|k: int| 0 <= k < self.devices@.len() && (#[trigger] self.devices@[k]).id@ == self.devices@[d].id@ ==> k == d,
    {
        assert forall|k: int| 0 <= k < self.devices@.len() && (#[trigger] self.devices@[k]).id@ == self.devices@[d].id@ implies k == d by {
            if k < d {
                assert(self.devices@[k].id@ != self.devices@[d].id@);
            } else if k > d {
                assert(self.devices@[d].id@ != self.devices@[k].id@);
            }
        }
    }

    /// Copies of `hash` on known devices, on `hot` ones and on `cold` ones.
    pub fn count_copies(&self, hash: &str) -> (r: (i64, i64, i64))
        requires
            self.wf(),
        ensures
            r.0 == total_copies(*self, hash@),
            r.1 == hot_copies(*self, hash@),
            r.2 == cold_copies(*self, hash@),
    {
        let mut t: usize = 0;
        let mut h: usize = 0;
        let mut c: usize = 0;
        let mut i: usize = 0;
        while i < self.locations.len()
            invariant
                self.wf(),
                i <= self.locations@.len(),
                t <= i && h <= i && c <= i,
                t == self.locations@.subrange(0, i as int).filter(copy_on_known(self.devices@, hash@)).len(),
                h == self.locations@.subrange(0, i as int).filter(copy_on_tier(self.devices@, hash@, "hot"@)).len(),
                c == self.locations@.subrange(0, i as int).filter(copy_on_tier(self.devices@, hash@, "cold"@)).len(),
            decreases self.locations@.len() - i,
        {
            let ghost sub = self.locations@.subrange(0, i + 1);
            proof {
                reveal(Seq::filter);
                assert(sub.drop_last() =~= self.locations@.subrange(0, i as int));
                assert(sub.last() == self.locations@[i as int]);
            }
            let l = &self.locations[i];
            let mut is_t = false;
            let mut is_h = false;
            let mut is_c = false;
            if same_text(l.blake3_hash.as_str(), hash) {
                match self.find_device(l.device_id.as_str()) {
                    Some(d) => {
                        proof {
                            self.lemma_device_unique(d as int);
                        }
                        is_t = true;
                        is_h = same_text(self.devices[d].device_type.as_str(), "hot");
                        is_c = same_text(self.devices[d].device_type.as_str(), "cold");
                    },
                    None => {},
                }
            }
            assert(copy_on_known(self.devices@, hash@)(*l) == is_t);
            assert(copy_on_tier(self.devices@, hash@, "hot"@)(*l) == is_h);
            assert(copy_on_tier(self.devices@, hash@, "cold"@)(*l) == is_c);
            if is_t {
                t = t + 1;
            }
            if is_h {
                h = h + 1;
            }
            if is_c {
                c = c + 1;
            }
            i = i + 1;
        }
        assert(self.locations@.subrange(0, i as int) =~= self.locations@);
        (t as i64, h as i64, c as i64)
    }

    /// The safety verdict for content `hash`: none where no record of it
    /// exists or no known device holds a copy.
    pub fn get_file_safety(&self, hash: &str) -> (r: Option<FileSafety>)
        requires
            self.wf(),
        ensures
            r.is_some() == (has_record(self.files@, hash@) && total_copies(*self, hash@) >= 1),
            match r {
                Some(x) => exists|j: int| 0 <= j < self.files@.len() && self.files@[j].blake3_hash@ == hash@
                    && safety_of(x, #[trigger] self.files@[j], *self),
                None => true,
            },
    {
        match self.find_file(hash) {
            None => None,
            Some(fi) => {
                let x = self.safety_for(fi);
                if x.total_copies == 0 {
                    None
                } else {
                    Some(x)
                }
            },
        }
    }

    /// The safety verdict of the record at `fi`.
    fn safety_for(&self, fi: usize) -> (r: FileSafety)
        requires
            self.wf(),
            fi < self.files@.len(),
        ensures
            safety_of(r, self.files@[fi as int], *self),
    {
        let f = &self.files[fi];
        let (t, h, c) = self.count_copies(f.blake3_hash.as_str());
        FileSafety {
            blake3_hash: f.blake3_hash.clone(),
            file_size: f.file_size,
            representative_name: f.representative_name.clone(),
            total_copies: t,
            hot_copies: h,
            cold_copies: c,
            is_safe: safe_verdict(t, c),
            locations: self.get_file_locations(f.blake3_hash.as_str()),
        }
    }

    /// The content records with a copy that are not backed up, each with its
    /// verdict, the largest file first.
    pub fn get_unsafe_files(&self) -> (r: Vec<FileSafety>)
        requires
            self.wf(),
        ensures
            lists_safety(r@, self.files@.filter(unsafe_record(*self)), *self),
            forall|a: int, b: int| 0 <= a < b < r@.len() ==> r@[a].file_size >= r@[b].file_size,
    {
        let ghost pred = unsafe_record(*self);
        let mut cands: Vec<FileSafety> = Vec::new();
        let mut keyed: Vec<(i64, usize)> = Vec::new();
        let mut i: usize = 0;
        while i < self.files.len()
            invariant
                self.wf(),
                pred == unsafe_record(*self),
                i <= self.files@.len(),
                cands@.len() == keyed@.len(),
                cands@.len() == self.files@.subrange(0, i as int).filter(pred).len(),
                forall|k: int| 0 <= k < cands@.len() ==> safety_of(#[trigger] cands@[k], self.files@.subrange(0, i as int).filter(pred)[k], *self),
                forall|k: int| 0 <= k < keyed@.len() ==> (#[trigger] keyed@[k]) == (cands@[k].file_size, k as usize),
            decreases self.files@.len() - i,
        {
            let ghost sub = self.files@.subrange(0, i + 1);
            proof {
                reveal(Seq::filter);
                assert(sub.drop_last() =~= self.files@.subrange(0, i as int));
                assert(sub.last() == self.files@[i as int]);
            }
            let x = self.safety_for(i);
            if x.total_copies >= 1 && !x.is_safe {
                assert(pred(self.files@[i as int]));
                keyed.push((x.file_size, cands.len()));
                cands.push(x);
            } else {
                assert(!pred(self.files@[i as int]));
            }
            i = i + 1;
        }
        assert(self.files@.subrange(0, i as int) =~= self.files@);
        let sorted = sort_desc(&keyed);
        proof {
            lemma_reordered_positions(keyed@, sorted@);
        }
        let mut out: Vec<FileSafety> = Vec::new();
        let mut k: usize = 0;
        while k < sorted.len()
            invariant
                k <= sorted@.len(),
                descending(sorted@),
                pred == unsafe_record(*self),
                sorted@.len() == cands@.len(),
                out@.len() == k,
                cands@.len() == self.files@.filter(pred).len(),
                forall|j: int| 0 <= j < cands@.len() ==> safety_of(#[trigger] cands@[j], self.files@.filter(pred)[j], *self),
                forall|j: int| 0 <= j < keyed@.len() ==> (#[trigger] keyed@[j]) == (cands@[j].file_size, j as usize),
                keyed@.len() == cands@.len(),
                forall|m: int| 0 <= m < sorted@.len() ==> (#[trigger] sorted@[m]).1 < keyed@.len()
                    && sorted@[m] == keyed@[sorted@[m].1 as int],
                forall|m: int| 0 <= m < k ==> safety_of(#[trigger] out@[m], self.files@.filter(pred)[sorted@[m].1 as int], *self),
                forall|m: int| 0 <= m < k ==> (#[trigger] out@[m]).file_size == sorted@[m].0,
            decreases sorted@.len() - k,
        {
            let at = sorted[k].1;
            out.push(cands[at].duplicate());
            k = k + 1;
        }
        proof {
            let rel = |x: FileSafety, f: FileRecord| safety_of(x, f, *self);
            assert forall|m: int| 0 <= m < out@.len() implies rel(#[trigger] out@[m], self.files@.filter(pred)[sorted@[m].1 as int]) by {
                assert(safety_of(out@[m], self.files@.filter(pred)[sorted@[m].1 as int], *self));
            }
            assert forall|j: int| 0 <= j < self.files@.filter(pred).len() implies #[trigger] position_listed(sorted@, j) by {
                assert(sorted@.contains(keyed@[j]));
                let m = choose|m: int| 0 <= m < sorted@.len() && sorted@[m] == keyed@[j];
                assert(sorted@[m].1 == j);
            }
            lemma_listed_once(out@, sorted@, self.files@.filter(pred), rel);
        }
        assert forall|a: int, b: int| 0 <= a < b < out@.len() implies out@[a].file_size >= out@[b].file_size by {
            assert(out@[a].file_size == sorted@[a].0 && out@[b].file_size == sorted@[b].0);
        }
        out
    }

    /// The content records held more than `threshold` times, each with the
    /// bytes that its extra copies take, the largest waste first.
    pub fn get_waste_candidates(&self, threshold: i64) -> (r: Vec<WasteCandidate>)
        requires
            self.wf(),
        ensures
            lists_waste(r@, self.files@.filter(over_threshold(*self, threshold)), *self),
            forall|a: int, b: int| 0 <= a < b < r@.len() ==> r@[a].wasted_bytes >= r@[b].wasted_bytes,
    {
        let ghost pred = over_threshold(*self, threshold);
        let mut cands: Vec<WasteCandidate> = Vec::new();
        let mut keyed: Vec<(i64, usize)> = Vec::new();
        let mut i: usize = 0;
        while i < self.files.len()
            invariant
                self.wf(),
                pred == over_threshold(*self, threshold),
                i <= self.files@.len(),
                cands@.len() == keyed@.len(),
                cands@.len() == self.files@.subrange(0, i as int).filter(pred).len(),
                forall|k: int| 0 <= k < cands@.len() ==> waste_of(#[trigger] cands@[k], self.files@.subrange(0, i as int).filter(pred)[k], *self),
                forall|k: int| 0 <= k < keyed@.len() ==> (#[trigger] keyed@[k]) == (cands@[k].wasted_bytes, k as usize),
            decreases self.files@.len() - i,
        {
            let ghost sub = self.files@.subrange(0, i + 1);
            proof {
                reveal(Seq::filter);
                assert(sub.drop_last() =~= self.files@.subrange(0, i as int));
                assert(sub.last() == self.files@[i as int]);
            }
            let f = &self.files[i];
            let locs = self.get_file_locations(f.blake3_hash.as_str());
            proof {
                self.locations@.lemma_filter_len(holds_hash(f.blake3_hash@));
            }
            let count = locs.len() as i64;
            if count > threshold {
                assert(pred(self.files@[i as int]));
                let w = WasteCandidate {
                    blake3_hash: f.blake3_hash.clone(),
                    file_size: f.file_size,
                    representative_name: f.representative_name.clone(),
                    total_copies: count,
                    wasted_bytes: wasted_bytes(f.file_size, count),
                };
                keyed.push((w.wasted_bytes, cands.len()));
                cands.push(w);
            } else {
                assert(!pred(self.files@[i as int]));
            }
            i = i + 1;
        }
        assert(self.files@.subrange(0, i as int) =~= self.files@);
        let sorted = sort_desc(&keyed);
        proof {
            lemma_reordered_positions(keyed@, sorted@);
        }
        let mut out: Vec<WasteCandidate> = Vec::new();
        let mut k: usize = 0;
        while k < sorted.len()
            invariant
                k <= sorted@.len(),
                descending(sorted@),
                pred == over_threshold(*self, threshold),
                sorted@.len() == cands@.len(),
                out@.len() == k,
                cands@.len() == self.files@.filter(pred).len(),
                forall|j: int| 0 <= j < cands@.len() ==> waste_of(#[trigger] cands@[j], self.files@.filter(pred)[j], *self),
                forall|j: int| 0 <= j < keyed@.len() ==> (#[trigger] keyed@[j]) == (cands@[j].wasted_bytes, j as usize),
                keyed@.len() == cands@.len(),
                forall|m: int| 0 <= m < sorted@.len() ==> (#[trigger] sorted@[m]).1 < keyed@.len()
                    && sorted@[m] == keyed@[sorted@[m].1 as int],
                forall|m: int| 0 <= m < k ==> waste_of(#[trigger] out@[m], self.files@.filter(pred)[sorted@[m].1 as int], *self),
                forall|m: int| 0 <= m < k ==> (#[trigger] out@[m]).wasted_bytes == sorted@[m].0,
            decreases sorted@.len() - k,
        {
            let at = sorted[k].1;
            out.push(cands[at].duplicate());
            k = k + 1;
        }
        proof {
            let rel = |x: WasteCandidate, f: FileRecord| waste_of(x, f, *self);
            assert forall|m: int| 0 <= m < out@.len() implies rel(#[trigger] out@[m], self.files@.filter(pred)[sorted@[m].1 as int]) by {
                assert(waste_of(out@[m], self.files@.filter(pred)[sorted@[m].1 as int], *self));
            }
            assert forall|j: int| 0 <= j < self.files@.filter(pred).len() implies #[trigger] position_listed(sorted@, j) by {
                assert(sorted@.contains(keyed@[j]));
                let m = choose|m: int| 0 <= m < sorted@.len() && sorted@[m] == keyed@[j];
                assert(sorted@[m].1 == j);
            }
            lemma_listed_once(out@, sorted@, self.files@.filter(pred), rel);
        }
        assert forall|a: int, b: int| 0 <= a < b < out@.len() implies out@[a].wasted_bytes >= out@[b].wasted_bytes by {
            assert(out@[a].wasted_bytes == sorted@[a].0 && out@[b].wasted_bytes == sorted@[b].0);
        }
        out
    }

    /// Totals over the store: distinct content records, locations, devices,
    /// the bytes of the distinct records (clamped into `i64`) and the number
    /// of records with a copy that are not backed up.
    pub fn get_dashboard_stats(&self) -> (r: DashboardStats)
        requires
            self.wf(),
        ensures
            r.total_files == self.files@.len(),
            r.total_locations == self.locations@.len(),
            r.total_devices == self.devices@.len(),
            r.total_size_bytes == clamp_i64(size_sum(self.files@)),
            r.unsafe_files == self.files@.filter(unsafe_record(*self)).len(),
    {
        let ghost pred = unsafe_record(*self);
        let mut sum: i128 = 0;
        let mut unsafe_count: usize = 0;
        let mut i: usize = 0;
        while i < self.files.len()
            invariant
                self.wf(),
                pred == unsafe_record(*self),
                i <= self.files@.len(),
                unsafe_count <= i,
                unsafe_count == self.files@.subrange(0, i as int).filter(pred).len(),
                sum == size_sum(self.files@.subrange(0, i as int)),
                -(i as int) * 0x8000_0000_0000_0000 <= sum <= (i as int) * 0x8000_0000_0000_0000,
            decreases self.files@.len() - i,
        {
            let ghost sub = self.files@.subrange(0, i + 1);
            proof {
                reveal(Seq::filter);
                assert(sub.drop_last() =~= self.files@.subrange(0, i as int));
                assert(sub.last() == self.files@[i as int]);
            }
            let f = &self.files[i];
            let (t, _h, c) = self.count_copies(f.blake3_hash.as_str());
            if t >= 1 && !safe_verdict(t, c) {
                assert(pred(self.files@[i as int]));
                unsafe_count = unsafe_count + 1;
            } else {
                assert(!pred(self.files@[i as int]));
            }
            sum = sum + f.file_size as i128;
            i = i + 1;
        }
        assert(self.files@.subrange(0, i as int) =~= self.files@);
        let total_size: i64 = if sum > i64::MAX as i128 {
            i64::MAX
        } else if sum < i64::MIN as i128 {
            i64::MIN
        } else {
            sum as i64
        };
        DashboardStats {
            total_files: self.files.len() as i64,
            total_locations: self.locations.len() as i64,
            unsafe_files: unsafe_count as i64,
            total_devices: self.devices.len() as i64,
            total_size_bytes: total_size,
        }
    }
}

} // verus!
