use vstd::prelude::*;
use crate::board::{adjacent, is_adjacent};
use crate::types::{Hotel, Slot, Tile};

verus! {

/// Slot `b` carries hotel `h` and lies next to slot `a`.
pub open spec fn chain_step(slots: Seq<Slot>, h: Hotel, a: int, b: int) -> bool {
    &&& 0 <= a < slots.len()
    &&& 0 <= b < slots.len()
    &&& slots[b].hotel == Some(h)
    &&& adjacent(slots[b], Tile { row: slots[a].row, col: slots[a].col })
}

/// With each of its members, `s` holds every slot of hotel `h` next to it.
pub open spec fn closed_under(slots: Seq<Slot>, h: Hotel, s: Set<int>) -> bool {
    forall|a: int, b: int| s.contains(a) && #[trigger] chain_step(slots, h, a, b) ==> s.contains(b)
}

/// Slot `k` belongs to the chain of `h` grown from slot `seed`: every set of
/// slots that holds the seed and is closed under steps to neighbouring slots
/// of `h` holds it.
pub open spec fn in_chain(slots: Seq<Slot>, h: Hotel, seed: int, k: int) -> bool {
    forall|s: Set<int>| s.contains(seed) && closed_under(slots, h, s) ==> #[trigger] s.contains(k)
}

/// Position of the first slot at or after `i` that carries `h`, or the number
/// of slots.
pub open spec fn first_of(slots: Seq<Slot>, h: Hotel, i: int) -> int
    decreases slots.len() - i,
{
    if i < 0 || i >= slots.len() {
        slots.len() as int
    } else if slots[i].hotel == Some(h) {
        i
    } else {
        first_of(slots, h, i + 1)
    }
}

/// How many of the first `n` slots belong to the chain grown from `seed`.
pub open spec fn chain_count(slots: Seq<Slot>, h: Hotel, seed: int, n: int) -> nat
    decreases n,
{
    if n <= 0 {
        0
    } else {
        chain_count(slots, h, seed, n - 1) + if in_chain(slots, h, seed, n - 1) {
            1nat
        } else {
            0nat
        }
    }
}

/// Size of the chain of hotel `h`: the slots joined, through neighbouring
/// slots of `h`, to the first slot that carries `h`; zero when none does.
pub open spec fn chain_size_of(slots: Seq<Slot>, h: Hotel) -> nat {
    let seed = first_of(slots, h, 0);
    if seed >= slots.len() {
        0
    } else {
        chain_count(slots, h, seed, slots.len() as int)
    }
}

/// How many of the first `m` marks are set.
pub open spec fn marked(v: Seq<bool>, m: int) -> nat
    decreases m,
{
    if m <= 0 {
        0
    } else {
        marked(v, m - 1) + if v[m - 1] {
            1nat
        } else {
            0nat
        }
    }
}

proof fn lemma_marked_bound(v: Seq<bool>, m: int)
    requires
        0 <= m,
    ensures
        marked(v, m) <= m,
    decreases m,
{
    if m > 0 {
        lemma_marked_bound(v, m - 1);
    }
}

proof fn lemma_marked_set(v: Seq<bool>, j: int, m: int)
    requires
        0 <= j < v.len(),
        0 <= m <= v.len(),
        !v[j],
    ensures
        marked(v.update(j, true), m) == marked(v, m) + if j < m {
            1nat
        } else {
            0nat
        },
    decreases m,
{
    if m > 0 {
        lemma_marked_set(v, j, m - 1);
    }
}

proof fn lemma_marked_chain(v: Seq<bool>, slots: Seq<Slot>, h: Hotel, seed: int, m: int)
    requires
        0 <= m <= v.len(),
        forall|k: int| 0 <= k < m ==> v[k] == in_chain(slots, h, seed, k),
    ensures
        marked(v, m) == chain_count(slots, h, seed, m),
    decreases m,
{
    if m > 0 {
        lemma_marked_chain(v, slots, h, seed, m - 1);
    }
}

/// Position of the first slot that carries `hotel`, or the number of slots.
fn first_slot_of(slots: &Vec<Slot>, hotel: Hotel) -> (r: usize)
    ensures
        r == first_of(slots@, hotel, 0),
{
    let mut i: usize = 0;
    while i < slots.len()
        invariant
            i <= slots@.len(),
            first_of(slots@, hotel, 0) == first_of(slots@, hotel, i as int),
        decreases slots@.len() - i,
    {
        if slots[i].hotel == Some(hotel) {
            return i;
        }
        i = i + 1;
    }
    i
}

/// Size of the chain of `hotel`, found by a breadth-first traversal from the
/// first slot that carries it, over neighbouring slots that carry it too.
pub fn hotel_chain_size(slots: &Vec<Slot>, hotel: Hotel) -> (r: usize)
    ensures
        r == chain_size_of(slots@, hotel),
{
    let n = slots.len();
    let seed = first_slot_of(slots, hotel);
    if seed >= n {
        return 0;
    }
    let ghost sl = slots@;
    let mut visited: Vec<bool> = Vec::new();
    for i in 0..n
        invariant
            visited@.len() == i,
            forall|k: int| 0 <= k < i ==> !visited@[k],
    {
        visited.push(false);
    }
    proof {
        assert(marked(visited@, n as int) == 0) by {
            lemma_marked_none(visited@, n as int);
        }
        lemma_marked_set(visited@, seed as int, n as int);
    }
    visited.set(seed, true);
    let mut queue: Vec<usize> = Vec::new();
    queue.push(seed);
    proof {
        assert forall|k: int| 0 <= k < n && #[trigger] visited@[k] implies queue@.contains(
            k as usize,
        ) by {
            assert(k == seed);
            assert(queue@[0] == seed);
        }
        assert(in_chain(sl, hotel, seed as int, seed as int));
    }
    let mut count: usize = 1;
    let mut head: usize = 0;
    while head < queue.len()
        invariant
            sl == slots@,
            n == sl.len(),
            visited@.len() == n,
            seed < n,
            visited@[seed as int],
            head <= queue@.len(),
            count == marked(visited@, n as int),
            queue@.len() == count,
            forall|i: int| 0 <= i < queue@.len() ==> #[trigger] queue@[i] < n && visited@[queue@[i] as int],
            forall|k: int| 0 <= k < n && #[trigger] visited@[k] ==> queue@.contains(k as usize),
            forall|i: int, b: int|
                0 <= i < head && #[trigger] chain_step(sl, hotel, queue@[i] as int, b) ==> visited@[b],
            forall|k: int| 0 <= k < n && #[trigger] visited@[k] ==> in_chain(sl, hotel, seed as int, k),
        decreases n - head,
    {
        proof {
            lemma_marked_bound(visited@, n as int);
        }
        let a = queue[head];
        let cell = Tile { row: slots[a].row, col: slots[a].col };
        let ghost visited0 = visited@;
        for b in 0..n
            invariant
                sl == slots@,
                n == sl.len(),
                visited@.len() == n,
                seed < n,
                a < n,
                visited@[a as int],
                cell == (Tile { row: sl[a as int].row, col: sl[a as int].col }),
                head < queue@.len(),
                queue@[head as int] == a,
                visited@[seed as int],
                count == marked(visited@, n as int),
                queue@.len() == count,
                visited0.len() == n,
                forall|k: int| 0 <= k < n && visited0[k] ==> #[trigger] visited@[k],
                forall|i: int| 0 <= i < queue@.len() ==> #[trigger] queue@[i] < n && visited@[queue@[i] as int],
                forall|k: int| 0 <= k < n && #[trigger] visited@[k] ==> queue@.contains(k as usize),
                forall|i: int, c: int|
                    0 <= i < head && #[trigger] chain_step(sl, hotel, queue@[i] as int, c) ==> visited@[c],
                forall|c: int| 0 <= c < b && #[trigger] chain_step(sl, hotel, a as int, c) ==> visited@[c],
                forall|k: int| 0 <= k < n && #[trigger] visited@[k] ==> in_chain(sl, hotel, seed as int, k),
        {
            if !visited[b] && slots[b].hotel == Some(hotel) && is_adjacent(&slots[b], &cell) {
                proof {
                    lemma_marked_set(visited@, b as int, n as int);
                    lemma_marked_bound(visited@.update(b as int, true), n as int);
                    assert(chain_step(sl, hotel, a as int, b as int));
                    assert(in_chain(sl, hotel, seed as int, b as int)) by {
                        assert forall|s: Set<int>| s.contains(seed as int) && closed_under(sl, hotel, s)
                            implies #[trigger] s.contains(b as int) by {
                            assert(in_chain(sl, hotel, seed as int, a as int));
                            assert(s.contains(a as int));
                        }
                    }
                }
                let ghost q0 = queue@;
                visited.set(b, true);
                queue.push(b);
                count = count + 1;
                proof {
                    assert forall|k: int| 0 <= k < n && #[trigger] visited@[k] implies queue@.contains(
                        k as usize,
                    ) by {
                        if k == b {
                            assert(queue@[q0.len() as int] == b);
                        } else {
                            let i = choose|i: int| 0 <= i < q0.len() && q0[i] == k as usize;
                            assert(queue@[i] == k as usize);
                        }
                    }
                    assert forall|i: int, c: int|
                        0 <= i < head && #[trigger] chain_step(sl, hotel, queue@[i] as int, c) implies visited@[c] by {
                        assert(queue@[i] == q0[i]);
                    }
                }
            }
        }
        head = head + 1;
    }
    proof {
        let whole = Set::new(|k: int| 0 <= k < n && visited@[k]);
        assert(closed_under(sl, hotel, whole)) by {
            assert forall|x: int, y: int| whole.contains(x) && #[trigger] chain_step(sl, hotel, x, y)
                implies whole.contains(y) by {
                assert(queue@.contains(x as usize));
                let i = choose|i: int| 0 <= i < queue@.len() && queue@[i] == x as usize;
                assert(chain_step(sl, hotel, queue@[i] as int, y));
            }
        }
        assert forall|k: int| 0 <= k < n implies visited@[k] == in_chain(sl, hotel, seed as int, k) by {
            if in_chain(sl, hotel, seed as int, k) {
                assert(whole.contains(seed as int));
                assert(whole.contains(k));
            }
        }
        lemma_marked_chain(visited@, sl, hotel, seed as int, n as int);
    }
    count
}

proof fn lemma_marked_none(v: Seq<bool>, m: int)
    requires
        0 <= m <= v.len(),
        forall|k: int| 0 <= k < m ==> !v[k],
    ensures
        marked(v, m) == 0,
    decreases m,
{
    if m > 0 {
        lemma_marked_none(v, m - 1);
    }
}

} // verus!
