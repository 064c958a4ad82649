//! The time-windowed roster cache: snapshot files are named by the epoch
//! second of capture, a snapshot younger than one hour answers a query,
//! and the first fresh snapshot found wins (not necessarily the freshest —
//! the scan takes the entries in the order given).
use crate::text::{chars_of, dec_chars_of, parse_u64, spec_parse_u64, split_on, split_ranges,
    u64_to_string};
use vstd::prelude::*;

verus! {

/// Seconds in one hour: the age below which a roster snapshot is fresh.
pub const CACHE_TTL_SECONDS: u64 = 3600;

/// A snapshot taken at `stamp` answers a query at `now` exactly when it is
/// not from the future and is strictly younger than the TTL.
pub open spec fn spec_cache_hit(stamp: u64, now: u64) -> bool {
    stamp <= now && now - stamp < CACHE_TTL_SECONDS
}

/// Decides whether a snapshot taken at `stamp` is still fresh at `now`.
pub fn is_cache_hit(stamp: u64, now: u64) -> (hit: bool)
    ensures
        hit == spec_cache_hit(stamp, now),
{
    stamp <= now && now - stamp < CACHE_TTL_SECONDS
}

/// A snapshot written at `t` is a hit for a query at `t + d` exactly while
/// `d` stays under the TTL: a hit from `t` through `t + 3599`, a miss from
/// `t + 3600` on.
pub proof fn lemma_cache_window(stamp: u64, d: u64)
    requires
        stamp + d <= u64::MAX,
    ensures
        spec_cache_hit(stamp, (stamp + d) as u64) <==> d < CACHE_TTL_SECONDS,
{
}

/// The capture time encoded in a snapshot file name: the decimal value of
/// what stands before the first dot, for names that have a dot at all.
pub open spec fn spec_file_stamp(name: Seq<char>) -> Option<u64> {
    let parts = split_on(name, '.');
    if parts.len() < 2 {
        None
    } else {
        spec_parse_u64(parts[0])
    }
}

/// Reads the capture time out of a snapshot file name such as
/// `1700000000.json`.
pub fn file_stamp(name: &str) -> (r: Option<u64>)
    ensures
        r == spec_file_stamp(name@),
{
    let ranges = split_ranges(name, '.');
    if ranges.len() < 2 {
        return None;
    }
    let (a, b) = (ranges[0].0, ranges[0].1);
    let prefix = name.substring_char(a, b);
    let prefix_chars = chars_of(prefix);
    proof {
        assert(prefix_chars@ == split_on(name@, '.')[0]);
    }
    parse_u64(&prefix_chars)
}

/// A file name names a snapshot that is fresh at `now`.
pub open spec fn spec_entry_hit(name: Seq<char>, now: u64) -> bool {
    match spec_file_stamp(name) {
        Some(ts) => spec_cache_hit(ts, now),
        None => false,
    }
}

/// Scans cache file names in the order given and picks the first fresh
/// snapshot, as the cache lookup does; entries that do not parse as
/// snapshot names never hit.
pub fn find_cache_hit(names: &Vec<String>, now: u64) -> (r: Option<usize>)
    ensures
        match r {
            Some(i) => {
                &&& i < names@.len()
                &&& spec_entry_hit(names@[i as int]@, now)
                &&& forall|j: int| 0 <= j < i ==> !spec_entry_hit(names@[j]@, now)
            },
            None => forall|j: int| 0 <= j < names@.len() ==> !spec_entry_hit(names@[j]@, now),
        },
{
    let n = names.len();
    let mut i: usize = 0;
    while i < n
        invariant
            i <= n == names@.len(),
            forall|j: int| 0 <= j < i ==> !spec_entry_hit(names@[j]@, now),
        decreases n - i,
    {
        match file_stamp(names[i].as_str()) {
            Some(ts) => {
                if is_cache_hit(ts, now) {
                    return Some(i);
                }
            },
            None => {},
        }
        i = i + 1;
    }
    None
}

/// The name a fresh snapshot is written under: the capture second and the
/// `.json` extension.
pub fn snapshot_file_name(now: u64) -> (r: String)
    ensures
        r@ == dec_chars_of(now as int) + ".json"@,
{
    let mut s = u64_to_string(now);
    s.append(".json");
    s
}

/// A snapshot's own name parses back to its capture time: scanning a
/// snapshot written at `now` finds the stamp `now` again.
pub proof fn lemma_snapshot_name_round_trip(now: u64)
    ensures
        spec_file_stamp(dec_chars_of(now as int) + ".json"@) == Some(now),
{
    reveal_strlit(".json");
    reveal_strlit("json");
    let digits = dec_chars_of(now as int);
    let name = digits + ".json"@;
    crate::text::lemma_dec_chars_value(now as int);
    assert(name =~= digits + seq!['.'] + "json"@);
    assert(!digits.contains('.')) by {
        assert('.' as u32 == 46);
        if digits.contains('.') {
            let i = choose|i: int| 0 <= i < digits.len() && digits[i] == '.';
            assert(crate::text::is_dec_digit(digits[i]));
        }
    }
    crate::text::lemma_split_concat(digits, "json"@, '.');
    crate::text::lemma_split_no_sep(digits, '.');
    crate::text::lemma_split_on_nonempty("json"@, '.');
    assert(split_on(name, '.')[0] == digits);
    assert(split_on(name, '.').len() >= 2);
    crate::text::lemma_parse_of_dec_chars(now);
}

} // verus!
