//! What holds of registrations that follow one another.

use vstd::prelude::*;
use crate::table::{registered, InlineAssets};

verus! {

/// Last write wins: after `path` was registered with `first` and then with
/// `second`, the table holds `second` at `path`, and is what registering
/// `second` alone would have made of it. The second registration adds no path.
pub proof fn lemma_last_write_wins(
    start: InlineAssets,
    once: InlineAssets,
    twice: InlineAssets,
    path: Seq<char>,
    first: Seq<u8>,
    second: Seq<u8>,
)
    requires
        registered(start, once, path, first),
        registered(once, twice, path, second),
    ensures
        twice@.contains_key(path),
        twice@[path] == second,
        twice@ == start@.insert(path, second),
        twice.paths() == once.paths(),
{
    assert(start@.insert(path, first).insert(path, second) =~= start@.insert(path, second));
}

/// Registering is idempotent: a second registration of `path` with the same
/// bytes changes neither the mapping nor the paths.
pub proof fn lemma_register_idempotent(
    start: InlineAssets,
    once: InlineAssets,
    twice: InlineAssets,
    path: Seq<char>,
    data: Seq<u8>,
)
    requires
        registered(start, once, path, data),
        registered(once, twice, path, data),
    ensures
        twice@ == once@,
        twice.paths() == once.paths(),
{
    assert(start@.insert(path, data).insert(path, data) =~= start@.insert(path, data));
}

} // verus!
