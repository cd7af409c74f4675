//! The pieces of a file path that the store records: the path relative to a
//! mount point, the file name and the extension.

use vstd::prelude::*;
use crate::clock::{lower_of, lowercase};
use crate::text::{is_prefix, last_index_of, find_last, tail_from, starts_with};

verus! {

/// `s` with its leading `/` characters removed.
pub open spec fn strip_slashes(s: Seq<char>) -> Seq<char>
    decreases s.len(),
{
    if s.len() > 0 && s[0] == '/' {
        strip_slashes(s.drop_first())
    } else {
        s
    }
}

/// `path` lies under `mount` as a whole path component, not merely as text.
pub open spec fn under_mount(mount: Seq<char>, path: Seq<char>) -> bool {
    &&& is_prefix(mount, path)
    &&& (mount.len() == path.len() || (mount.len() > 0 && mount.last() == '/')
        || path[mount.len() as int] == '/')
}

/// `path` relative to `mount`; `path` itself where it does not lie under it.
pub open spec fn relative_to(path: Seq<char>, mount: Seq<char>) -> Seq<char> {
    if under_mount(mount, path) {
        strip_slashes(path.subrange(mount.len() as int, path.len() as int))
    } else {
        path
    }
}

/// The last component of a path: what follows its last `/`.
pub open spec fn file_name_of(path: Seq<char>) -> Seq<char> {
    path.subrange(last_index_of(path, '/') + 1, path.len() as int)
}

/// The extension of a file name: what follows its last `.`, where that dot
/// is not the name's first character; empty otherwise.
pub open spec fn extension_of(name: Seq<char>) -> Seq<char> {
    let d = last_index_of(name, '.');
    if d <= 0 {
        Seq::empty()
    } else {
        name.subrange(d + 1, name.len() as int)
    }
}

fn skip_slashes(s: &str) -> (r: String)
    ensures
        r@ == strip_slashes(s@),
{
    let n = s.unicode_len();
    let mut i: usize = 0;
    assert(s@.subrange(0, n as int) =~= s@);
    while i < n && s.get_char(i) == '/'
        invariant
            n == s@.len(),
            i <= n,
            strip_slashes(s@) == strip_slashes(s@.subrange(i as int, n as int)),
        decreases n - i,
    {
        assert(s@.subrange(i as int, n as int).drop_first() =~= s@.subrange(i + 1, n as int));
        i = i + 1;
    }
    if i < n {
        assert(s@.subrange(i as int, n as int)[0] == s@[i as int]);
    }
    tail_from(s, i)
}

/// The path of `path` relative to `mount`, as the store keys it.
pub fn relative_path(path: &str, mount: &str) -> (r: String)
    ensures
        r@ == relative_to(path@, mount@),
{
    if !starts_with(path, mount) {
        return path.to_owned();
    }
    let m = mount.unicode_len();
    let n = path.unicode_len();
    let at_boundary = m == n || (m > 0 && mount.get_char(m - 1) == '/') || path.get_char(m) == '/';
    if !at_boundary {
        return path.to_owned();
    }
    let rest = path.substring_char(m, n);
    skip_slashes(rest)
}

/// The file name of a path.
pub fn file_name(path: &str) -> (r: String)
    ensures
        r@ == file_name_of(path@),
{
    proof {
        crate::text::lemma_last_index_bounds(path@, '/');
    }
    match find_last(path, '/') {
        Some(i) => tail_from(path, i + 1),
        None => path.to_owned(),
    }
}

/// The extension of a file name, as it is written.
pub fn extension(name: &str) -> (r: String)
    ensures
        r@ == extension_of(name@),
{
    proof {
        crate::text::lemma_last_index_bounds(name@, '.');
    }
    match find_last(name, '.') {
        Some(d) => {
            if d == 0 {
                String::new()
            } else {
                tail_from(name, d + 1)
            }
        },
        None => String::new(),
    }
}

/// The extension of the file at `path`, in lower case, as the store
/// records it.
pub fn lower_extension(path: &str) -> (r: String)
    ensures
        r@ == lower_of(extension_of(file_name_of(path@))),
{
    let name = file_name(path);
    let raw = extension(name.as_str());
    lowercase(raw.as_str())
}

} // verus!
