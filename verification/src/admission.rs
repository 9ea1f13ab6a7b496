//! Making room for an incoming statement: which statements of a priority
//! queue have to leave so that the incoming one fits under the limits of a
//! constraint tier.

use vstd::prelude::*;
use crate::index::Entry;
use crate::keys::same_bytes;
use crate::queue::{PriorityQueue, QueueEntry};

verus! {

/// The statements chosen for eviction, in the order in which they were
/// chosen, and the sum of their payload lengths.
pub struct Evictions {
    pub hashes: Seq<crate::keys::Hash>,
    pub freed: nat,
}

/// What an incoming statement asks of a tier, and the limits of the tier.
pub struct Demand {
    /// Content address of the incoming statement.
    pub hash: crate::keys::Hash,
    /// Its priority.
    pub priority: u32,
    /// Length of its payload.
    pub len: nat,
    /// Largest sum of payload lengths the tier may hold.
    pub max_size: nat,
    /// Largest number of statements the tier may hold.
    pub max_count: nat,
}

/// Sum of the recorded payload lengths of the statements `hashes`.
pub open spec fn freed_sum(
    entries: Map<crate::keys::Hash, Entry>,
    hashes: Seq<crate::keys::Hash>,
) -> nat
    decreases hashes.len(),
{
    if hashes.len() == 0 {
        0
    } else {
        freed_sum(entries, hashes.drop_last()) + entries[hashes.last()].len as nat
    }
}

/// Whether the incoming statement fits into a tier that holds `count`
/// statements of total size `used`, once the chosen statements have left.
pub open spec fn fits(used: nat, count: nat, ev: Evictions, d: Demand) -> bool {
    used - ev.freed + d.len <= d.max_size && count + 1 - ev.hashes.len() <= d.max_count
}

/// Walks the queue `q` from position `from` in the order of the queue and
/// chooses statements for eviction until the incoming statement fits.
/// Statements chosen before are passed over. The walk fails, with `None`,
/// where it comes upon a statement whose own priority is not lower than
/// the incoming one's, upon an earlier copy of the incoming statement
/// itself, or upon the end of the queue while the statement does not fit.
pub open spec fn make_room(
    q: Seq<QueueEntry>,
    from: nat,
    ev: Evictions,
    used: nat,
    d: Demand,
) -> Option<Evictions>
    decreases q.len() - from,
{
    if fits(used, q.len(), ev, d) {
        Some(ev)
    } else if from >= q.len() {
        None
    } else if ev.hashes.contains(q[from as int].key.hash) {
        make_room(q, from + 1, ev, used, d)
    } else if q[from as int].priority >= d.priority || q[from as int].key.hash == d.hash {
        None
    } else {
        make_room(
            q,
            from + 1,
            Evictions {
                hashes: ev.hashes.push(q[from as int].key.hash),
                freed: ev.freed + q[from as int].len as nat,
            },
            used,
            d,
        )
    }
}

/// Whether the queue holds the statement `h` with an own priority lower
/// than `priority`.
pub open spec fn lower_in(q: Seq<QueueEntry>, h: crate::keys::Hash, priority: u32) -> bool {
    exists|i: int| 0 <= i < q.len() && (#[trigger] q[i]).key.hash == h && q[i].priority < priority
}

/// Whether the statements `chosen` stand in the queue `q`, from position
/// `from` on, in the order in which they are listed.
pub open spec fn in_queue_order(chosen: Seq<crate::keys::Hash>, q: Seq<QueueEntry>, from: nat) -> bool
    decreases q.len() - from,
{
    if chosen.len() == 0 {
        true
    } else if from >= q.len() {
        false
    } else if q[from as int].key.hash == chosen[0] {
        in_queue_order(chosen.drop_first(), q, from + 1)
    } else {
        in_queue_order(chosen, q, from + 1)
    }
}

/// Priority monotonicity of a walk: what the walk chooses comes after what
/// was chosen before, is held by the queue with an own priority strictly
/// lower than the incoming one, and is not the incoming statement itself.
pub proof fn law_make_room_lower(q: Seq<QueueEntry>, from: nat, ev: Evictions, used: nat, d: Demand)
    requires
        make_room(q, from, ev, used, d).is_some(),
    ensures
        ({
            let out = make_room(q, from, ev, used, d).unwrap();
            &&& out.hashes.len() >= ev.hashes.len()
            &&& out.hashes.subrange(0, ev.hashes.len() as int) == ev.hashes
            &&& forall|k: int|
                ev.hashes.len() <= k < out.hashes.len() ==> lower_in(
                    q,
                    #[trigger] out.hashes[k],
                    d.priority,
                ) && out.hashes[k] != d.hash
        }),
    decreases q.len() - from,
{
    let out = make_room(q, from, ev, used, d).unwrap();
    if fits(used, q.len(), ev, d) {
        assert(out.hashes.subrange(0, ev.hashes.len() as int) =~= ev.hashes);
    } else if ev.hashes.contains(q[from as int].key.hash) {
        law_make_room_lower(q, from + 1, ev, used, d);
    } else {
        let h = q[from as int].key.hash;
        let next = Evictions { hashes: ev.hashes.push(h), freed: ev.freed + q[from as int].len as nat };
        law_make_room_lower(q, from + 1, next, used, d);
        assert(out.hashes.subrange(0, ev.hashes.len() as int) =~= next.hashes.subrange(
            0,
            ev.hashes.len() as int,
        )) by {
            assert(out.hashes.subrange(0, next.hashes.len() as int) == next.hashes);
            assert forall|k: int| 0 <= k < ev.hashes.len() implies out.hashes[k]
                == next.hashes[k] by {
                assert(out.hashes.subrange(0, next.hashes.len() as int)[k] == out.hashes[k]);
            }
        }
        assert(next.hashes.subrange(0, ev.hashes.len() as int) =~= ev.hashes);
        assert forall|k: int| ev.hashes.len() <= k < out.hashes.len() implies lower_in(
            q,
            #[trigger] out.hashes[k],
            d.priority,
        ) && out.hashes[k] != d.hash by {
            if k == ev.hashes.len() {
                assert(out.hashes.subrange(0, next.hashes.len() as int)[k] == out.hashes[k]);
                assert(out.hashes[k] == h);
                assert(q[from as int].key.hash == h);
            }
        }
    }
}

/// Capacity after a walk: where a walk succeeds, the incoming statement
/// fits once the chosen statements have left.
pub proof fn law_make_room_fits(q: Seq<QueueEntry>, from: nat, ev: Evictions, used: nat, d: Demand)
    requires
        make_room(q, from, ev, used, d).is_some(),
    ensures
        fits(used, q.len(), make_room(q, from, ev, used, d).unwrap(), d),
    decreases q.len() - from,
{
    if fits(used, q.len(), ev, d) {
    } else if ev.hashes.contains(q[from as int].key.hash) {
        law_make_room_fits(q, from + 1, ev, used, d);
    } else {
        let h = q[from as int].key.hash;
        let next = Evictions { hashes: ev.hashes.push(h), freed: ev.freed + q[from as int].len as nat };
        law_make_room_fits(q, from + 1, next, used, d);
    }
}

/// Order of eviction: what a walk chooses, it chooses in the order of the
/// queue, lowest key first.
pub proof fn law_make_room_order(q: Seq<QueueEntry>, from: nat, ev: Evictions, used: nat, d: Demand)
    requires
        make_room(q, from, ev, used, d).is_some(),
    ensures
        ({
            let out = make_room(q, from, ev, used, d).unwrap();
            &&& out.hashes.len() >= ev.hashes.len()
            &&& in_queue_order(
                out.hashes.subrange(ev.hashes.len() as int, out.hashes.len() as int),
                q,
                from,
            )
        }),
    decreases q.len() - from,
{
    let out = make_room(q, from, ev, used, d).unwrap();
    law_make_room_lower(q, from, ev, used, d);
    let chosen = out.hashes.subrange(ev.hashes.len() as int, out.hashes.len() as int);
    if fits(used, q.len(), ev, d) {
    } else if ev.hashes.contains(q[from as int].key.hash) {
        law_make_room_order(q, from + 1, ev, used, d);
        if chosen.len() > 0 {
            assert(chosen[0] == out.hashes[ev.hashes.len() as int]);
            assert(out.hashes.subrange(0, ev.hashes.len() as int) == ev.hashes);
            lemma_fresh(q, from + 1, ev, used, d, ev.hashes.len() as int);
        }
    } else {
        let h = q[from as int].key.hash;
        let next = Evictions { hashes: ev.hashes.push(h), freed: ev.freed + q[from as int].len as nat };
        law_make_room_order(q, from + 1, next, used, d);
        law_make_room_lower(q, from + 1, next, used, d);
        assert(out.hashes.subrange(0, next.hashes.len() as int)[ev.hashes.len() as int]
            == out.hashes[ev.hashes.len() as int]);
        assert(chosen[0] == h);
        assert(chosen.drop_first() =~= out.hashes.subrange(
            next.hashes.len() as int,
            out.hashes.len() as int,
        ));
    }
}

/// What a walk adds was not chosen before.
proof fn lemma_fresh(q: Seq<QueueEntry>, from: nat, ev: Evictions, used: nat, d: Demand, k: int)
    requires
        make_room(q, from, ev, used, d).is_some(),
        ev.hashes.len() <= k < make_room(q, from, ev, used, d).unwrap().hashes.len(),
    ensures
        !ev.hashes.contains(make_room(q, from, ev, used, d).unwrap().hashes[k]),
    decreases q.len() - from,
{
    let out = make_room(q, from, ev, used, d).unwrap();
    if fits(used, q.len(), ev, d) {
    } else if ev.hashes.contains(q[from as int].key.hash) {
        lemma_fresh(q, from + 1, ev, used, d, k);
    } else {
        let h = q[from as int].key.hash;
        let next = Evictions { hashes: ev.hashes.push(h), freed: ev.freed + q[from as int].len as nat };
        law_make_room_lower(q, from + 1, next, used, d);
        if k == ev.hashes.len() {
            assert(out.hashes.subrange(0, next.hashes.len() as int)[k] == out.hashes[k]);
        } else {
            lemma_fresh(q, from + 1, next, used, d, k);
            if ev.hashes.contains(out.hashes[k]) {
                let w = choose|w: int| 0 <= w < ev.hashes.len() && ev.hashes[w] == out.hashes[k];
                assert(next.hashes[w] == out.hashes[k]);
            }
        }
    }
}

/// Whether `h` is among `hashes`.
pub fn contains_hash(hashes: &Vec<crate::keys::Hash>, h: &crate::keys::Hash) -> (r: bool)
    ensures
        r == hashes@.contains(*h),
{
    let mut i: usize = 0;
    while i < hashes.len()
        invariant
            i <= hashes@.len(),
            forall|j: int| 0 <= j < i ==> hashes@[j] != *h,
        decreases hashes@.len() - i,
    {
        if same_bytes(&hashes[i], h) {
            return true;
        }
        i += 1;
    }
    false
}

/// Whether the incoming statement fits, computed without overflow.
fn fits_now(
    used: u128,
    count: usize,
    chosen: usize,
    freed: u128,
    len: usize,
    max_size: usize,
    max_count: usize,
) -> (r: bool)
    requires
        used + usize::MAX <= u128::MAX,
    ensures
        r == (used - freed + len <= max_size && count + 1 - chosen <= max_count),
{
    let wanted: u128 = used + len as u128;
    let size_ok = freed > wanted || wanted - freed <= max_size as u128;
    let count_ok = chosen > count || count - chosen < max_count;
    size_ok && count_ok
}

/// Walks `queue` as `make_room` says, adding the chosen statements to
/// `evicted` and their lengths to `freed`. The result is `false` where the
/// walk fails.
pub(crate) fn walk(
    queue: &PriorityQueue,
    evicted: &mut Vec<crate::keys::Hash>,
    freed: &mut u128,
    used: u128,
    len: usize,
    priority: u32,
    hash: &crate::keys::Hash,
    max_size: usize,
    max_count: usize,
    Ghost(entries): Ghost<Map<crate::keys::Hash, Entry>>,
) -> (ok: bool)
    requires
        used + usize::MAX <= u128::MAX,
        forall|i: int|
            0 <= i < queue@.len() ==> entries.contains_key((#[trigger] queue@[i]).key.hash)
                && queue@[i].len == entries[queue@[i].key.hash].len,
        *old(freed) == freed_sum(entries, old(evicted)@),
        *old(freed) <= old(evicted)@.len() * usize::MAX,
    ensures
        make_room(
            queue@,
            0,
            Evictions { hashes: old(evicted)@, freed: *old(freed) as nat },
            used as nat,
            Demand {
                hash: *hash,
                priority,
                len: len as nat,
                max_size: max_size as nat,
                max_count: max_count as nat,
            },
        ) == (if ok {
            Some(Evictions { hashes: final(evicted)@, freed: *final(freed) as nat })
        } else {
            None
        }),
        ok ==> {
            &&& *final(freed) == freed_sum(entries, final(evicted)@)
            &&& *final(freed) <= final(evicted)@.len() * usize::MAX
            &&& final(evicted)@.len() >= old(evicted)@.len()
            &&& final(evicted)@.subrange(0, old(evicted)@.len() as int) == old(evicted)@
            &&& forall|k: int|
                old(evicted)@.len() <= k < final(evicted)@.len() ==> lower_in(
                    queue@,
                    #[trigger] final(evicted)@[k],
                    priority,
                )
            &&& forall|k: int|
                old(evicted)@.len() <= k < final(evicted)@.len() ==> #[trigger] final(evicted)@[k]
                    != *hash
            &&& forall|k: int, m: int|
                0 <= m < k < final(evicted)@.len() && old(evicted)@.len() <= k
                    ==> final(evicted)@[m] != final(evicted)@[k]
            &&& fits(
                used as nat,
                queue@.len(),
                Evictions { hashes: final(evicted)@, freed: *final(freed) as nat },
                Demand {
                    hash: *hash,
                    priority,
                    len: len as nat,
                    max_size: max_size as nat,
                    max_count: max_count as nat,
                },
            )
        },
{
    let ghost d = Demand {
        hash: *hash,
        priority,
        len: len as nat,
        max_size: max_size as nat,
        max_count: max_count as nat,
    };
    let ghost start = Evictions { hashes: evicted@, freed: *freed as nat };
    let ghost n0 = evicted@.len();
    let n = queue.len();
    let mut i: usize = 0;
    while i < n
        invariant
            i <= n,
            n == queue@.len(),
            used + usize::MAX <= u128::MAX,
            start == (Evictions { hashes: old(evicted)@, freed: *old(freed) as nat }),
            n0 == old(evicted)@.len(),
            d == (Demand {
                hash: *hash,
                priority,
                len: len as nat,
                max_size: max_size as nat,
                max_count: max_count as nat,
            }),
            forall|j: int|
                0 <= j < queue@.len() ==> entries.contains_key((#[trigger] queue@[j]).key.hash)
                    && queue@[j].len == entries[queue@[j].key.hash].len,
            make_room(queue@, 0, start, used as nat, d) == make_room(
                queue@,
                i as nat,
                Evictions { hashes: evicted@, freed: *freed as nat },
                used as nat,
                d,
            ),
            *freed == freed_sum(entries, evicted@),
            *freed <= evicted@.len() * usize::MAX,
            evicted@.len() >= n0,
            evicted@.subrange(0, n0 as int) == old(evicted)@,
            forall|k: int|
                n0 <= k < evicted@.len() ==> lower_in(queue@, #[trigger] evicted@[k], priority),
            forall|k: int| n0 <= k < evicted@.len() ==> #[trigger] evicted@[k] != *hash,
            forall|k: int, m: int|
                0 <= m < k < evicted@.len() && n0 <= k ==> evicted@[m] != evicted@[k],
        decreases n - i,
    {
        let chosen = evicted.len();
        if fits_now(used, n, chosen, *freed, len, max_size, max_count) {
            return true;
        }
        let entry = queue.entry(i);
        if contains_hash(evicted, &entry.key.hash) {
            i += 1;
        } else if entry.priority >= priority || same_bytes(&entry.key.hash, hash) {
            return false;
        } else {
            let ghost before = evicted@;
            proof {
                assert((chosen + 1) * usize::MAX <= u128::MAX) by (nonlinear_arith)
                    requires
                        chosen <= usize::MAX,
                        usize::MAX <= 0xffff_ffff_ffff_ffff,
                ;
                assert(*freed + entry.len <= (chosen + 1) * usize::MAX) by (nonlinear_arith)
                    requires
                        *freed <= chosen * usize::MAX,
                        entry.len <= usize::MAX,
                ;
            }
            evicted.push(entry.key.hash);
            *freed = *freed + entry.len as u128;
            proof {
                assert(evicted@.drop_last() =~= before);
                assert(evicted@.subrange(0, n0 as int) =~= before.subrange(0, n0 as int));
                assert forall|k: int| n0 <= k < evicted@.len() implies lower_in(
                    queue@,
                    #[trigger] evicted@[k],
                    priority,
                ) by {
                    if k < before.len() {
                        assert(evicted@[k] == before[k]);
                    } else {
                        assert(queue@[i as int].key.hash == evicted@[k]);
                    }
                }
                assert forall|k: int, m: int|
                    0 <= m < k < evicted@.len() && n0 <= k implies evicted@[m] != evicted@[k] by {
                    if k < before.len() {
                        assert(evicted@[k] == before[k] && evicted@[m] == before[m]);
                    } else {
                        assert(evicted@[m] == before[m]);
                        assert(before.contains(before[m]));
                    }
                }
            }
            i += 1;
        }
    }
    fits_now(used, n, evicted.len(), *freed, len, max_size, max_count)
}

} // verus!
