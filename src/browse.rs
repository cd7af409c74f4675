//! Directory listings for the file picker.

use vstd::prelude::*;
use crate::model::DirEntry;

verus! {

/// Entries whose name does not start with a dot.
pub open spec fn not_hidden() -> spec_fn(DirEntry) -> bool {
    |e: DirEntry| !(e.name@.len() > 0 && e.name@[0] == '.')
}

/// The entries that a listing shows: hidden ones, whose name starts with a
/// dot, are left out; the others keep their order.
pub fn visible(entries: Vec<DirEntry>) -> (r: Vec<DirEntry>)
    ensures
        r@ == entries@.filter(not_hidden()),
{
    let mut out: Vec<DirEntry> = Vec::new();
    let mut rest = entries;
    let ghost all = rest@;
    let mut i: usize = 0;
    let n = rest.len();
    assert(all.subrange(0, all.len() as int) =~= all);
    while rest.len() > 0
        invariant
            all.len() == n,
            rest@.len() + i == all.len(),
            rest@ == all.subrange(i as int, all.len() as int),
            out@ == all.subrange(0, i as int).filter(not_hidden()),
        decreases rest@.len(),
    {
        let e = rest.remove(0);
        proof {
            reveal(Seq::filter);
            assert(e == all[i as int]);
            assert(all.subrange(0, i + 1).drop_last() =~= all.subrange(0, i as int));
            assert(all.subrange(0, i + 1).last() == all[i as int]);
        }
        let hidden = e.name.unicode_len() > 0 && e.name.as_str().get_char(0) == '.';
        if !hidden {
            out.push(e);
        }
        i = i + 1;
        assert(rest@ =~= all.subrange(i as int, all.len() as int));
    }
    assert(all.subrange(0, i as int) =~= all);
    out
}

} // verus!
