//! Trash expiry by visit count: counters keyed by trash entry name,
//! pruned to the entries that still exist, incremented on each visit,
//! with entries reaching the threshold marked for removal.

use vstd::prelude::*;
use crate::json::{jlookup, JsonObj, JsonVal, JVal};

verus! {

/// The visit threshold applied when the host names none.
pub fn trash_threshold(threshold: Option<i64>) -> (r: i64)
    ensures
        r as int == (match threshold {
            Some(t) => t as int,
            None => 10,
        }),
{
    match threshold {
        Some(t) => t,
        None => 10,
    }
}

/// Some name in the listing equals `k`.
pub open spec fn spec_has_name(items: Seq<Seq<char>>, k: Seq<char>) -> bool {
    exists|i: int| 0 <= i < items.len() && items[i] == k
}

/// The names of a trash listing.
pub open spec fn name_views(items: Seq<String>) -> Seq<Seq<char>> {
    items.map_values(|s: String| s@)
}

/// The counter a name holds, with a missing or non-integer entry
/// counting as zero.
pub open spec fn spec_count(visits: Seq<(Seq<char>, JVal)>, k: Seq<char>) -> int {
    match jlookup(visits, k) {
        Some(JVal::Int(n)) => n,
        _ => 0,
    }
}

/// The counters narrowed to the names that are still present in the
/// trash: a counter for a vanished entry is dropped.
pub fn prune_visits(visits: &JsonObj, items: &Vec<String>) -> (r: JsonObj)
    ensures
        forall|k: Seq<char>|
            #[trigger] jlookup(r@, k) == (if spec_has_name(name_views(items@), k) {
                match jlookup(visits@, k) {
                    Some(JVal::Int(n)) => Some(JVal::Int(n)),
                    _ => None::<JVal>,
                }
            } else {
                None::<JVal>
            }),
{
    let n = items.len();
    let mut out = JsonObj::new();
    let mut i: usize = 0;
    proof {
        assert(forall|k: Seq<char>| #[trigger] jlookup(out@, k) is None);
    }
    while i < n
        invariant
            i <= n,
            n == items@.len(),
            forall|k: Seq<char>|
                #[trigger] jlookup(out@, k) == (if exists|j: int|
                    0 <= j < i && name_views(items@)[j] == k {
                    match jlookup(visits@, k) {
                        Some(JVal::Int(c)) => Some(JVal::Int(c)),
                        _ => None::<JVal>,
                    }
                } else {
                    None::<JVal>
                }),
        decreases n - i,
    {
        let name = items[i].as_str();
        match visits.get_i64(name) {
            Some(c) => {
                out.set(name, JsonVal::Int(c));
                proof {
                    assert forall|k: Seq<char>| #[trigger] jlookup(out@, k) == (if exists|j: int|
                        0 <= j < i + 1 && name_views(items@)[j] == k {
                        match jlookup(visits@, k) {
                            Some(JVal::Int(c2)) => Some(JVal::Int(c2)),
                            _ => None::<JVal>,
                        }
                    } else {
                        None::<JVal>
                    }) by {
                        if k == name@ {
                            assert(name_views(items@)[i as int] == k);
                        }
                    }
                }
            },
            None => {
                proof {
                    assert forall|k: Seq<char>| #[trigger] jlookup(out@, k) == (if exists|j: int|
                        0 <= j < i + 1 && name_views(items@)[j] == k {
                        match jlookup(visits@, k) {
                            Some(JVal::Int(c2)) => Some(JVal::Int(c2)),
                            _ => None::<JVal>,
                        }
                    } else {
                        None::<JVal>
                    }) by {
                        if k == name@ {
                            assert(name_views(items@)[i as int] == k);
                        }
                    }
                }
            },
        }
        i = i + 1;
    }
    out
}

/// The counters after pruning, and the per-entry counts the host is
/// shown: every present entry with its current counter, a missing
/// counter shown as zero.
pub fn trash_status_core(items: &Vec<String>, visits: &JsonObj) -> (r: (JsonObj, Vec<(
    String,
    i64,
)>))
    ensures
        forall|k: Seq<char>|
            #[trigger] jlookup(r.0@, k) == (if spec_has_name(name_views(items@), k) {
                match jlookup(visits@, k) {
                    Some(JVal::Int(n)) => Some(JVal::Int(n)),
                    _ => None::<JVal>,
                }
            } else {
                None::<JVal>
            }),
        r.1@.len() == items@.len(),
        forall|j: int|
            0 <= j < items@.len() ==> (#[trigger] r.1@[j]).0@ == items@[j]@ && r.1@[j].1 as int
                == spec_count(visits@, items@[j]@),
{
    let pruned = prune_visits(visits, items);
    let n = items.len();
    let mut counts: Vec<(String, i64)> = Vec::new();
    let mut i: usize = 0;
    while i < n
        invariant
            i <= n,
            n == items@.len(),
            counts@.len() == i,
            forall|j: int|
                0 <= j < i ==> (#[trigger] counts@[j]).0@ == items@[j]@ && counts@[j].1 as int
                    == spec_count(visits@, items@[j]@),
        decreases n - i,
    {
        let c = match visits.get_i64(items[i].as_str()) {
            Some(c) => c,
            None => 0,
        };
        counts.push((items[i].clone(), c));
        i = i + 1;
    }
    (pruned, counts)
}

/// One sweep of the trash: what the counters became, which entries
/// expired, and what the host is shown.
pub struct TrashSweep {
    pub visits: JsonObj,
    pub deleted: Vec<(String, i64)>,
    pub counts: JsonObj,
    pub visited_count: usize,
}

/// One visit: every present entry's counter rises by one; an entry
/// whose counter reaches the threshold is reported deleted and its
/// counter dropped; the rest keep their new counter, which is also
/// reported back. Counters of vanished entries are pruned first.
pub fn trash_visit_core(items: &Vec<String>, visits: &JsonObj, threshold: i64) -> (r: TrashSweep)
    requires
        forall|i: int, j: int|
            0 <= i < j < items@.len() ==> (#[trigger] items@[i])@ != (#[trigger] items@[j])@,
        forall|k: Seq<char>|
            (#[trigger] jlookup(visits@, k)) matches Some(JVal::Int(n)) ==> n < i64::MAX,
    ensures
        r.visited_count == items@.len(),
        forall|j: int|
            0 <= j < items@.len() ==> {
                let k = (#[trigger] items@[j])@;
                let next = spec_count(visits@, k) + 1;
                if next >= threshold as int {
                    &&& jlookup(r.visits@, k) is None
                    &&& jlookup(r.counts@, k) is None
                    &&& exists|d: int|
                        0 <= d < r.deleted@.len() && (#[trigger] r.deleted@[d]).0@ == k
                            && r.deleted@[d].1 as int == next
                } else {
                    &&& jlookup(r.visits@, k) == Some(JVal::Int(next))
                    &&& jlookup(r.counts@, k) == Some(JVal::Int(next))
                }
            },
        forall|k: Seq<char>|
            !spec_has_name(name_views(items@), k) ==> #[trigger] jlookup(r.visits@, k) is None,
        forall|d: int|
            0 <= d < r.deleted@.len() ==> spec_has_name(
                name_views(items@),
                (#[trigger] r.deleted@[d]).0@,
            ),
        forall|d: int|
            0 <= d < r.deleted@.len() ==> (#[trigger] r.deleted@[d]).1 as int == spec_count(
                visits@,
                r.deleted@[d].0@,
            ) + 1 && r.deleted@[d].1 as int >= threshold as int,
        forall|a: int, b: int|
            0 <= a < b < r.deleted@.len() ==> (#[trigger] r.deleted@[a]).0@ != (
            #[trigger] r.deleted@[b]).0@,
{
    let mut v = prune_visits(visits, items);
    let n = items.len();
    let mut deleted: Vec<(String, i64)> = Vec::new();
    let mut counts = JsonObj::new();
    let mut i: usize = 0;
    proof {
        assert forall|j: int| 0 <= j < items@.len() implies spec_has_name(
            name_views(items@),
            (#[trigger] items@[j])@,
        ) by {
            assert(name_views(items@)[j] == items@[j]@);
        }
    }
    while i < n
        invariant
            i <= n,
            n == items@.len(),
            forall|a: int, b: int|
                0 <= a < b < items@.len() ==> (#[trigger] items@[a])@ != (#[trigger] items@[b])@,
            forall|k: Seq<char>|
                (#[trigger] jlookup(visits@, k)) matches Some(JVal::Int(c)) ==> c < i64::MAX,
            forall|j: int|
                0 <= j < i ==> {
                    let k = (#[trigger] items@[j])@;
                    let next = spec_count(visits@, k) + 1;
                    if next >= threshold as int {
                        &&& jlookup(v@, k) is None
                        &&& jlookup(counts@, k) is None
                        &&& exists|d: int|
                            0 <= d < deleted@.len() && (#[trigger] deleted@[d]).0@ == k
                                && deleted@[d].1 as int == next
                    } else {
                        &&& jlookup(v@, k) == Some(JVal::Int(next))
                        &&& jlookup(counts@, k) == Some(JVal::Int(next))
                    }
                },
            forall|j: int|
                0 <= j < items@.len() ==> spec_has_name(
                    name_views(items@),
                    (#[trigger] items@[j])@,
                ),
            forall|j: int|
                i <= j < items@.len() ==> #[trigger] jlookup(v@, items@[j]@) == (
                match jlookup(visits@, items@[j]@) {
                    Some(JVal::Int(c)) => Some(JVal::Int(c)),
                    _ => None::<JVal>,
                }),
            forall|j: int|
                i <= j < items@.len() ==> #[trigger] jlookup(counts@, items@[j]@) is None,
            forall|k: Seq<char>|
                !spec_has_name(name_views(items@), k) ==> #[trigger] jlookup(v@, k) is None,
            forall|k: Seq<char>|
                !spec_has_name(name_views(items@), k) ==> #[trigger] jlookup(counts@, k) is None,
            forall|d: int|
                0 <= d < deleted@.len() ==> spec_has_name(
                    name_views(items@),
                    (#[trigger] deleted@[d]).0@,
                ),
            forall|d: int|
                0 <= d < deleted@.len() ==> (exists|j: int|
                    0 <= j < i && (#[trigger] deleted@[d]).0@ == (#[trigger] items@[j])@),
            forall|d: int|
                0 <= d < deleted@.len() ==> (#[trigger] deleted@[d]).1 as int == spec_count(
                    visits@,
                    deleted@[d].0@,
                ) + 1 && deleted@[d].1 as int >= threshold as int,
            forall|a: int, b: int|
                0 <= a < b < deleted@.len() ==> (#[trigger] deleted@[a]).0@ != (
                #[trigger] deleted@[b]).0@,
        decreases n - i,
    {
        let name = items[i].as_str();
        let ghost deleted_entry = deleted@;
        proof {
            assert(jlookup(v@, items@[i as int]@) == (match jlookup(visits@, items@[i as int]@) {
                Some(JVal::Int(c)) => Some(JVal::Int(c)),
                _ => None::<JVal>,
            }));
        }
        let cur = match v.get_i64(name) {
            Some(c) => c,
            None => 0,
        };
        let next = cur + 1;
        if next >= threshold {
            let ghost old_deleted = deleted@;
            deleted.push((items[i].clone(), next));
            v.remove_key(name);
            proof {
                assert(spec_has_name(name_views(items@), items@[i as int]@)) by {
                    assert(name_views(items@)[i as int] == items@[i as int]@);
                }
                assert(forall|d: int|
                    0 <= d < old_deleted.len() ==> #[trigger] deleted@[d] == old_deleted[d]);
                let di = deleted@.len() - 1;
                assert(deleted@[di].0@ == items@[i as int]@);
                assert(deleted@[di].1 == next);
                assert forall|d: int| 0 <= d < deleted@.len() implies (exists|j: int|
                    0 <= j < i + 1 && (#[trigger] deleted@[d]).0@ == (#[trigger] items@[j])@) by {
                    if d < old_deleted.len() {
                        let j0 = choose|j: int|
                            0 <= j < i && old_deleted[d].0@ == (#[trigger] items@[j])@;
                        assert(deleted@[d].0@ == items@[j0]@);
                    } else {
                        assert(deleted@[d].0@ == items@[i as int]@);
                    }
                }
                assert forall|a: int, b: int| 0 <= a < b < deleted@.len() implies (
                #[trigger] deleted@[a]).0@ != (#[trigger] deleted@[b]).0@ by {
                    if b == di {
                        let j0 = choose|j: int|
                            0 <= j < i && old_deleted[a].0@ == (#[trigger] items@[j])@;
                        assert(deleted@[a].0@ == items@[j0]@);
                        assert(items@[j0]@ != items@[i as int]@);
                    }
                }
            }
        } else {
            v.set(name, JsonVal::Int(next));
            counts.set(name, JsonVal::Int(next));
            proof {
                assert(spec_has_name(name_views(items@), items@[i as int]@)) by {
                    assert(name_views(items@)[i as int] == items@[i as int]@);
                }
            }
        }
        proof {
            assert forall|j: int|
                0 <= j < i + 1 && spec_count(visits@, (#[trigger] items@[j])@) + 1
                    >= threshold as int implies exists|d: int|
                0 <= d < deleted@.len() && (#[trigger] deleted@[d]).0@ == items@[j]@
                    && deleted@[d].1 as int == spec_count(visits@, items@[j]@) + 1 by {
                let k = items@[j]@;
                let nx = spec_count(visits@, k) + 1;
                if j < i {
                    let d0 = choose|d: int|
                        0 <= d < deleted_entry.len() && (#[trigger] deleted_entry[d]).0@ == k
                            && deleted_entry[d].1 as int == nx;
                    assert(deleted@[d0].0@ == k);
                    assert(deleted@[d0].1 as int == nx);
                } else {
                    let di = deleted@.len() - 1;
                    assert(deleted@[di].0@ == k);
                    assert(deleted@[di].1 as int == nx);
                }
            }
        }
        i = i + 1;
    }
    let r = TrashSweep { visits: v, deleted, counts, visited_count: n };
    proof {
        assert forall|j: int|
            0 <= j < items@.len() && spec_count(visits@, (#[trigger] items@[j])@) + 1
                >= threshold as int implies exists|d: int|
            0 <= d < r.deleted@.len() && (#[trigger] r.deleted@[d]).0@ == items@[j]@
                && r.deleted@[d].1 as int == spec_count(visits@, items@[j]@) + 1 by {
            let k = items@[j]@;
            let nx = spec_count(visits@, k) + 1;
            let d0 = choose|d: int|
                0 <= d < r.deleted@.len() && (#[trigger] r.deleted@[d]).0@ == k && r.deleted@[d].1
                    as int == nx;
            assert(r.deleted@[d0].0@ == k);
        }
    }
    r
}

} // verus!
