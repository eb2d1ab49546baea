//! The bounded accumulator behind `batch` and `unique`-stream: a per-node list capped at
//! [`BATCH_MAX`]. A batch releases at its count (or force-releases at the cap, never dropping
//! data); a unique seen-set drops its oldest keys past the cap.
use vstd::prelude::*;

use crate::json::str_eq;

verus! {

/// The hard bound on a node's buffer.
pub const BATCH_MAX: usize = 1000;

/// The batch size a `count` asks for, clamped to `1..=BATCH_MAX`.
pub open spec fn batch_target(count: usize) -> usize {
    if count < 1 {
        1
    } else if count > BATCH_MAX {
        BATCH_MAX
    } else {
        count
    }
}

/// Append `item` to a batch buffer. When the buffer (with the new item) reaches the batch size or
/// the cap, the whole group is released and the stored buffer is emptied; otherwise the item is
/// buffered and nothing is released. Returns `(stored buffer, released group)`.
pub fn batch_append<T>(items: Vec<T>, item: T, count: usize) -> (r: (Vec<T>, Option<Vec<T>>))
    requires
        items@.len() < usize::MAX,
    ensures
        ({
            let all = items@.push(item);
            if all.len() >= batch_target(count) {
                r.0@.len() == 0 && (r.1 matches Some(g) && g@ == all)
            } else {
                r.0@ == all && r.1.is_none()
            }
        }),
{
    let mut items = items;
    items.push(item);
    let target = if count < 1 {
        1
    } else if count > BATCH_MAX {
        BATCH_MAX
    } else {
        count
    };
    if items.len() >= target || items.len() >= BATCH_MAX {
        (Vec::new(), Some(items))
    } else {
        (items, None)
    }
}

/// Is `key` in the seen-set?
pub open spec fn seen(items: Seq<String>, key: Seq<char>) -> bool {
    exists|i: int| 0 <= i < items.len() && #[trigger] items[i]@ == key
}

/// Test a `unique`-stream key (its canonical text) against the seen-set. A seen key is a duplicate
/// (`false`, set unchanged); a new key passes (`true`) and is appended, dropping the oldest keys
/// until the set is within the cap. Returns `(passes, new seen-set)`.
pub fn unique_seen(items: Vec<String>, key: String) -> (r: (bool, Vec<String>))
    requires
        items@.len() < usize::MAX,
    ensures
        r.0 == !seen(items@, key@),
        !r.0 ==> r.1@ == items@,
        r.0 ==> ({
            let all = items@.push(key);
            if all.len() > BATCH_MAX {
                r.1@ == all.subrange(all.len() - BATCH_MAX, all.len() as int)
            } else {
                r.1@ == all
            }
        }),
{
    let mut i: usize = 0;
    while i < items.len()
        invariant
            i <= items@.len(),
            forall|j: int| 0 <= j < i ==> items@[j]@ != key@,
        decreases items@.len() - i,
    {
        if str_eq(items[i].as_str(), key.as_str()) {
            return (false, items);
        }
        i = i + 1;
    }
    let mut items = items;
    let ghost all = items@.push(key);
    items.push(key);
    assert(items@ =~= all.subrange(all.len() - items@.len(), all.len() as int));
    while items.len() > BATCH_MAX
        invariant
            items@.len() <= all.len(),
            items@ == all.subrange(all.len() - items@.len(), all.len() as int),
            all.len() > BATCH_MAX ==> items@.len() >= BATCH_MAX,
            all.len() <= BATCH_MAX ==> items@.len() == all.len(),
        decreases items@.len(),
    {
        let ghost before = items@;
        items.remove(0);
        assert(items@ =~= all.subrange(all.len() - items@.len(), all.len() as int));
    }
    (true, items)
}

/// The indices of the first occurrence of each distinct key, in order (the `unique` node's
/// array mode keeps the elements at these indices).
pub open spec fn first_occurrence(keys: Seq<String>, i: int) -> bool {
    forall|j: int| 0 <= j < i ==> keys[j]@ != keys[i]@
}

/// Keep the first occurrence of each key: returns the indices `i` (ascending) whose key did not
/// occur before.
pub fn dedupe_indices(keys: &Vec<String>) -> (r: Vec<usize>)
    ensures
        forall|a: int, b: int| 0 <= a < b < r@.len() ==> r@[a] < r@[b],
        forall|a: int| 0 <= a < r@.len() ==> r@[a] < keys@.len(),
        forall|i: int|
            0 <= i < keys@.len() ==> (first_occurrence(keys@, i) <==> exists|a: int|
                0 <= a < r@.len() && #[trigger] r@[a] == i),
{
    let mut out: Vec<usize> = Vec::new();
    let mut i: usize = 0;
    while i < keys.len()
        invariant
            i <= keys@.len(),
            forall|a: int, b: int| 0 <= a < b < out@.len() ==> out@[a] < out@[b],
            forall|a: int| 0 <= a < out@.len() ==> out@[a] < i,
            forall|q: int|
                0 <= q < i ==> (first_occurrence(keys@, q) <==> exists|a: int|
                    0 <= a < out@.len() && #[trigger] out@[a] == q),
        decreases keys@.len() - i,
    {
        let mut fresh = true;
        let mut j: usize = 0;
        while j < i
            invariant
                j <= i,
                i < keys@.len(),
                fresh == forall|q: int| 0 <= q < j ==> keys@[q]@ != keys@[i as int]@,
            decreases i - j,
        {
            if str_eq(keys[j].as_str(), keys[i].as_str()) {
                fresh = false;
            }
            j = j + 1;
        }
        let ghost before = out@;
        if fresh {
            out.push(i);
        }
        proof {
            assert forall|q: int|
                0 <= q < i + 1 implies (first_occurrence(keys@, q) <==> exists|a: int|
                    0 <= a < out@.len() && #[trigger] out@[a] == q) by {
                if q < i {
                    if exists|a: int| 0 <= a < before.len() && #[trigger] before[a] == q {
                        let a = choose|a: int| 0 <= a < before.len() && #[trigger] before[a] == q;
                        assert(out@[a] == q);
                    }
                    if exists|a: int| 0 <= a < out@.len() && #[trigger] out@[a] == q {
                        let a = choose|a: int| 0 <= a < out@.len() && #[trigger] out@[a] == q;
                        if a < before.len() {
                            assert(before[a] == q);
                        }
                    }
                } else {
                    if fresh {
                        assert(out@[before.len() as int] == q);
                    } else {
                        if exists|a: int| 0 <= a < out@.len() && #[trigger] out@[a] == q {
                            let a = choose|a: int| 0 <= a < out@.len() && #[trigger] out@[a] == q;
                            assert(before[a] < i);
                        }
                    }
                }
            }
        }
        i = i + 1;
    }
    out
}

/// `filter` in `changed` mode (keys compared by canonical text): the first firing always passes;
/// later ones pass only when the key differs from the last recorded one.
pub fn filter_changed(last: Option<&str>, cur: &str) -> (pass: bool)
    ensures
        pass == match last {
            None => true,
            Some(prev) => prev@ != cur@,
        },
{
    match last {
        None => true,
        Some(prev) => !str_eq(prev, cur),
    }
}

} // verus!
