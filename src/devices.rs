//! Which volumes count as user storage, and which volume holds a path.

use vstd::prelude::*;
use crate::model::DetectedDisk;
use crate::path::{file_name, file_name_of};
use crate::text::{is_prefix, starts_with, tail_from};

verus! {

/// `p` occurs somewhere in `s`.
pub open spec fn occurs_in(p: Seq<char>, s: Seq<char>) -> bool {
    exists|i: int| 0 <= i <= s.len() - p.len() && #[trigger] s.subrange(i, i + p.len()) == p
}

/// Whether `p` occurs somewhere in `s`.
pub fn contains(s: &str, p: &str) -> (r: bool)
    ensures
        r == occurs_in(p@, s@),
{
    let n = s.unicode_len();
    let m = p.unicode_len();
    if m > n {
        return false;
    }
    if m == 0 {
        assert(s@.subrange(0int, 0int + p@.len()) =~= p@);
        return true;
    }
    let mut i: usize = 0;
    while i <= n - m
        invariant
            n == s@.len(),
            m == p@.len(),
            1 <= m <= n,
            i <= n - m + 1,
            forall|k: int| 0 <= k < i ==> #[trigger] s@.subrange(k, k + m) != p@,
        decreases n - m + 1 - i,
    {
        let rest = s.substring_char(i, n);
        if starts_with(rest, p) {
            assert(rest@.subrange(0, m as int) =~= s@.subrange(i as int, i + m));
            return true;
        }
        assert(rest@.subrange(0, m as int) =~= s@.subrange(i as int, i + m));
        i = i + 1;
    }
    false
}

/// Mount points under which system volumes live.
pub open spec fn excluded_prefix(mount: Seq<char>) -> bool {
    is_prefix("/System"@, mount) || is_prefix("/Library"@, mount) || is_prefix("/private"@, mount)
        || is_prefix("/dev"@, mount) || is_prefix("/home"@, mount) || is_prefix("/cores"@, mount)
}

/// Names that mark a helper or system volume.
pub open spec fn excluded_part(mount: Seq<char>) -> bool {
    occurs_in("Preboot"@, mount) || occurs_in("Recovery"@, mount) || occurs_in("VM"@, mount)
        || occurs_in("Update"@, mount) || occurs_in("xarts"@, mount) || occurs_in("iSCPreboot"@, mount)
        || occurs_in("Hardware"@, mount)
}

/// Whether a volume mounted at `mount_point` is left out of detection.
pub fn is_excluded(mount_point: &str) -> (r: bool)
    ensures
        r == (excluded_prefix(mount_point@) || excluded_part(mount_point@)),
{
    starts_with(mount_point, "/System") || starts_with(mount_point, "/Library") || starts_with(mount_point, "/private")
        || starts_with(mount_point, "/dev") || starts_with(mount_point, "/home") || starts_with(mount_point, "/cores")
        || contains(mount_point, "Preboot") || contains(mount_point, "Recovery") || contains(mount_point, "VM")
        || contains(mount_point, "Update") || contains(mount_point, "xarts") || contains(mount_point, "iSCPreboot")
        || contains(mount_point, "Hardware")
}

/// The device that holds `path`: among those whose mount point is a prefix
/// of it, the one with the longest mount point, the first such on a tie.
pub open spec fn owns_path(devices: Seq<DetectedDisk>, path: Seq<char>, i: int) -> bool {
    &&& 0 <= i < devices.len()
    &&& is_prefix(devices[i].mount_point@, path)
    &&& forall|k: int| 0 <= k < devices.len() && is_prefix((#[trigger] devices[k]).mount_point@, path)
        ==> devices[k].mount_point@.len() <= devices[i].mount_point@.len()
    &&& forall|k: int| 0 <= k < i && is_prefix((#[trigger] devices[k]).mount_point@, path)
        ==> devices[k].mount_point@.len() < devices[i].mount_point@.len()
}

/// The identity and mount point of the device that holds `path`, found by
/// the longest mount point that prefixes it; none where no mount point does.
pub fn device_for_path(devices: &Vec<DetectedDisk>, path: &str) -> (r: Option<(String, String)>)
    ensures
        match r {
            Some((id, mount)) => exists|i: int| owns_path(devices@, path@, i) && id@ == devices@[i].id@
                && mount@ == devices@[i].mount_point@,
            None => forall|k: int| 0 <= k < devices@.len() ==> !is_prefix((#[trigger] devices@[k]).mount_point@, path@),
        },
{
    let mut best: Option<usize> = None;
    let mut best_len: usize = 0;
    let mut i: usize = 0;
    while i < devices.len()
        invariant
            i <= devices@.len(),
            match best {
                Some(b) => b < i && best_len == devices@[b as int].mount_point@.len()
                    && is_prefix(devices@[b as int].mount_point@, path@)
                    && (forall|k: int| 0 <= k < i && is_prefix((#[trigger] devices@[k]).mount_point@, path@)
                        ==> devices@[k].mount_point@.len() <= best_len)
                    && (forall|k: int| 0 <= k < b && is_prefix((#[trigger] devices@[k]).mount_point@, path@)
                        ==> devices@[k].mount_point@.len() < best_len),
                None => forall|k: int| 0 <= k < i ==> !is_prefix((#[trigger] devices@[k]).mount_point@, path@),
            },
        decreases devices@.len() - i,
    {
        let dev = &devices[i];
        if starts_with(path, dev.mount_point.as_str()) {
            let len = dev.mount_point.unicode_len();
            match best {
                None => {
                    best = Some(i);
                    best_len = len;
                },
                Some(_) => {
                    if len > best_len {
                        best = Some(i);
                        best_len = len;
                    }
                },
            }
        }
        i = i + 1;
    }
    match best {
        Some(b) => {
            assert(owns_path(devices@, path@, b as int));
            Some((devices[b].id.clone(), devices[b].mount_point.clone()))
        },
        None => None,
    }
}

/// The label shown for a volume: its name, or where it has none the last
/// component of its mount point.
pub fn volume_label(name: &str, mount: &str) -> (r: String)
    ensures
        r@ == if name@.len() == 0 { file_name_of(mount@) } else { name@ },
{
    if name.unicode_len() == 0 {
        file_name(mount)
    } else {
        name.to_owned()
    }
}

/// An ASCII whitespace character.
pub open spec fn is_space(c: char) -> bool {
    c == ' ' || c == '\t' || c == '\n' || c == '\r' || c == '\x0B' || c == '\x0C'
}

/// `s` without leading whitespace.
pub open spec fn trim_start(s: Seq<char>) -> Seq<char>
    decreases s.len(),
{
    if s.len() > 0 && is_space(s[0]) { trim_start(s.drop_first()) } else { s }
}

/// `s` without trailing whitespace.
pub open spec fn trim_end(s: Seq<char>) -> Seq<char>
    decreases s.len(),
{
    if s.len() > 0 && is_space(s.last()) { trim_end(s.drop_last()) } else { s }
}

/// `s` without surrounding whitespace.
pub open spec fn trim(s: Seq<char>) -> Seq<char> {
    trim_end(trim_start(s))
}

/// Index of the first `c` in `s`, or the length of `s` where there is none.
pub open spec fn first_index_of(s: Seq<char>, c: char) -> int
    decreases s.len(),
{
    if s.len() == 0 {
        0
    } else if s[0] == c {
        0
    } else {
        1 + first_index_of(s.drop_first(), c)
    }
}

/// The text between the first `:` of `line` and the next one, or the end.
pub open spec fn second_field(line: Seq<char>) -> Seq<char> {
    let a = first_index_of(line, ':');
    if a < 0 || a >= line.len() {
        Seq::empty()
    } else {
        let rest = line.subrange(a + 1, line.len() as int);
        let b = first_index_of(rest, ':');
        if b < 0 || b > rest.len() { Seq::empty() } else { rest.subrange(0, b) }
    }
}

/// A line of `diskutil info` that names the volume identity.
pub open spec fn names_uuid(t: Seq<char>) -> bool {
    is_prefix("Volume UUID:"@, t) || is_prefix("Disk / Partition UUID:"@, t)
}

/// The volume identity in the output of `diskutil info`: on the first line
/// that, trimmed, starts with `Volume UUID:` or `Disk / Partition UUID:`, the
/// trimmed text after that colon, up to any further colon.
pub open spec fn uuid_in(s: Seq<char>) -> Option<Seq<char>>
    decreases s.len(),
{
    let e = first_index_of(s, '\n');
    if e < 0 || e > s.len() {
        None
    } else if names_uuid(trim(s.subrange(0, e))) {
        Some(trim(second_field(trim(s.subrange(0, e)))))
    } else if e >= s.len() {
        None
    } else {
        uuid_in(s.subrange(e + 1, s.len() as int))
    }
}

proof fn lemma_first_index_bounds(s: Seq<char>, c: char)
    ensures
        0 <= first_index_of(s, c) <= s.len(),
        first_index_of(s, c) < s.len() ==> s[first_index_of(s, c)] == c,
        forall|k: int| 0 <= k < first_index_of(s, c) ==> s[k] != c,
    decreases s.len(),
{
    if s.len() > 0 && s[0] != c {
        lemma_first_index_bounds(s.drop_first(), c);
        assert forall|k: int| 0 <= k < first_index_of(s, c) implies s[k] != c by {
            if k > 0 {
                assert(s[k] == s.drop_first()[k - 1]);
            }
        }
    }
}

proof fn lemma_first_index_skip(s: Seq<char>, c: char, i: int)
    requires
        0 <= i <= s.len(),
        forall|k: int| 0 <= k < i ==> s[k] != c,
    ensures
        first_index_of(s, c) == i + first_index_of(s.subrange(i, s.len() as int), c),
    decreases i,
{
    if i > 0 {
        lemma_first_index_skip(s.drop_first(), c, i - 1);
        assert(s.drop_first().subrange(i - 1, s.drop_first().len() as int) =~= s.subrange(i, s.len() as int));
    } else {
        assert(s.subrange(0, s.len() as int) =~= s);
    }
}

/// Where the first `c` stands in `s`, or its length.
fn find_first(s: &str, c: char) -> (r: usize)
    ensures
        r == first_index_of(s@, c),
{
    let n = s.unicode_len();
    let mut i: usize = 0;
    while i < n && s.get_char(i) != c
        invariant
            n == s@.len(),
            i <= n,
            forall|k: int| 0 <= k < i ==> s@[k] != c,
        decreases n - i,
    {
        i = i + 1;
    }
    proof {
        lemma_first_index_skip(s@, c, i as int);
        let t = s@.subrange(i as int, n as int);
        if i < n {
            assert(t[0] == c);
        } else {
            assert(t.len() == 0);
        }
    }
    i
}

/// `s` without surrounding whitespace.
pub fn trimmed(s: &str) -> (r: String)
    ensures
        r@ == trim(s@),
{
    let n = s.unicode_len();
    let mut a: usize = 0;
    assert(s@.subrange(0, n as int) =~= s@);
    while a < n && is_space_char(s.get_char(a))
        invariant
            n == s@.len(),
            a <= n,
            trim_start(s@) == trim_start(s@.subrange(a as int, n as int)),
        decreases n - a,
    {
        assert(s@.subrange(a as int, n as int).drop_first() =~= s@.subrange(a + 1, n as int));
        a = a + 1;
    }
    if a < n {
        assert(s@.subrange(a as int, n as int)[0] == s@[a as int]);
    }
    assert(trim_start(s@) == s@.subrange(a as int, n as int));
    let mut b: usize = n;
    while b > a && is_space_char(s.get_char(b - 1))
        invariant
            n == s@.len(),
            a <= b <= n,
            trim(s@) == trim_end(s@.subrange(a as int, b as int)),
        decreases b - a,
    {
        assert(s@.subrange(a as int, b as int).drop_last() =~= s@.subrange(a as int, b - 1));
        b = b - 1;
    }
    if b > a {
        assert(s@.subrange(a as int, b as int).last() == s@[b - 1]);
    }
    s.substring_char(a, b).to_owned()
}

fn is_space_char(c: char) -> (r: bool)
    ensures
        r == is_space(c),
{
    c == ' ' || c == '\t' || c == '\n' || c == '\r' || c == '\x0B' || c == '\x0C'
}

/// The volume identity that `diskutil info` printed, if it printed one.
pub fn parse_volume_uuid(stdout: &str) -> (r: Option<String>)
    ensures
        match r {
            Some(u) => uuid_in(stdout@) == Some(u@),
            None => uuid_in(stdout@) is None,
        },
{
    let n = stdout.unicode_len();
    let mut start: usize = 0;
    assert(stdout@.subrange(0, n as int) =~= stdout@);
    loop
        invariant
            n == stdout@.len(),
            start <= n,
            uuid_in(stdout@) == uuid_in(stdout@.subrange(start as int, n as int)),
        decreases n - start,
    {
        let rest = stdout.substring_char(start, n);
        let e = find_first(rest, '\n');
        proof {
            lemma_first_index_bounds(rest@, '\n');
        }
        let line = trimmed(rest.substring_char(0, e));
        if starts_with(line.as_str(), "Volume UUID:") || starts_with(line.as_str(), "Disk / Partition UUID:") {
            let a = find_first(line.as_str(), ':');
            proof {
                lemma_first_index_bounds(line@, ':');
                crate::text::lemma_last_index_bounds(line@, ':');
            }
            if a >= line.unicode_len() {
                return Some(String::new());
            }
            let tail = tail_from(line.as_str(), a + 1);
            let b = find_first(tail.as_str(), ':');
            proof {
                lemma_first_index_bounds(tail@, ':');
            }
            let field = trimmed(tail.as_str().substring_char(0, b));
            return Some(field);
        }
        if e >= rest.unicode_len() {
            return None;
        }
        assert(rest@.subrange(e + 1, rest@.len() as int) =~= stdout@.subrange(start + e + 1, n as int));
        start = start + e + 1;
    }
}

} // verus!
