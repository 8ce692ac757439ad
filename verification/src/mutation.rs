//! Which player slots a team mutation touches: every slot independently with
//! probability 2/5, and one slot drawn uniformly when no slot was picked, so that a
//! mutated team always differs in at least one slot's draw.

use vstd::prelude::*;

verus! {

/// Number of player slots in a team.
pub const TEAM_SLOTS: usize = 5;

/// The indices `i` with `picked[i]`, in increasing order.
pub open spec fn picked_indices(picked: Seq<bool>) -> Seq<usize>
    decreases picked.len(),
{
    if picked.len() == 0 {
        Seq::empty()
    } else if picked.last() {
        picked_indices(picked.drop_last()).push((picked.len() - 1) as usize)
    } else {
        picked_indices(picked.drop_last())
    }
}

/// The slots a mutation changes, given for each slot whether it was picked and the
/// slot drawn for the case that none was.
pub open spec fn mutation_slots(picked: Seq<bool>, fallback: usize) -> Seq<usize> {
    if picked_indices(picked).len() == 0 {
        seq![fallback]
    } else {
        picked_indices(picked)
    }
}

/// Strictly increasing indices below `n`.
pub open spec fn increasing_below(s: Seq<usize>, n: nat) -> bool {
    &&& forall|a: int| 0 <= a < s.len() ==> #[trigger] s[a] < n
    &&& forall|a: int, b: int| 0 <= a < b < s.len() ==> #[trigger] s[a] < #[trigger] s[b]
}

proof fn lemma_push_contains(s: Seq<usize>, x: usize, y: usize)
    ensures
        s.push(x).contains(y) <==> (s.contains(y) || x == y),
{
    if s.contains(y) {
        let k = choose|k: int| 0 <= k < s.len() && s[k] == y;
        assert(s.push(x)[k] == y);
    }
    if x == y {
        assert(s.push(x)[s.len() as int] == y);
    }
    if s.push(x).contains(y) {
        let k = choose|k: int| 0 <= k < s.push(x).len() && s.push(x)[k] == y;
        if k < s.len() {
            assert(s[k] == y);
        }
    }
}

proof fn lemma_picked_shape(picked: Seq<bool>)
    requires
        picked.len() <= usize::MAX,
    ensures
        increasing_below(picked_indices(picked), picked.len()),
        forall|i: int| 0 <= i < picked.len() ==> (#[trigger] picked[i] <==> picked_indices(picked).contains(i as usize)),
    decreases picked.len(),
{
    if picked.len() > 0 {
        let n = picked.len();
        let rest = picked.drop_last();
        lemma_picked_shape(rest);
        let r = picked_indices(rest);
        let p = picked_indices(picked);
        if picked.last() {
            assert(p == r.push((n - 1) as usize));
            assert forall|a: int, b: int| 0 <= a < b < p.len() implies #[trigger] p[a] < #[trigger] p[b] by {
                if b == r.len() {
                    assert(r[a] < rest.len());
                } else {
                    assert(r[a] < r[b]);
                }
            }
            assert forall|a: int| 0 <= a < p.len() implies #[trigger] p[a] < n by {
                if a < r.len() {
                    assert(r[a] < rest.len());
                }
            }
        }
        assert forall|i: int| 0 <= i < n implies (#[trigger] picked[i] <==> p.contains(i as usize)) by {
            if picked.last() {
                lemma_push_contains(r, (n - 1) as usize, i as usize);
                if i < n - 1 {
                    assert(rest[i] == picked[i]);
                }
            } else {
                if i < n - 1 {
                    assert(rest[i] == picked[i]);
                } else {
                    if r.contains(i as usize) {
                        let k = choose|k: int| 0 <= k < r.len() && r[k] == i as usize;
                        assert(r[k] < rest.len());
                    }
                }
            }
        }
    }
}

/// The slots a mutation changes, from the draws: `picked[i]` tells whether slot `i`
/// came up in its own draw, `fallback` is the slot taken when none did.
pub fn slots_from_draws(picked: &Vec<bool>, fallback: usize) -> (res: Vec<usize>)
    requires
        picked.len() == TEAM_SLOTS,
        fallback < TEAM_SLOTS,
    ensures
        res@ == mutation_slots(picked@, fallback),
        res.len() >= 1,
        increasing_below(res@, TEAM_SLOTS as nat),
        forall|i: int| 0 <= i < TEAM_SLOTS ==> (#[trigger] picked@[i] ==> res@.contains(i as usize)),
{
    let mut out: Vec<usize> = Vec::new();
    let mut i: usize = 0;
    while i < picked.len()
        invariant
            i <= picked.len(),
            out@ == picked_indices(picked@.take(i as int)),
        decreases picked.len() - i,
    {
        proof {
            assert(picked@.take(i + 1).drop_last() =~= picked@.take(i as int));
        }
        if picked[i] {
            out.push(i);
        }
        i = i + 1;
    }
    proof {
        assert(picked@.take(i as int) =~= picked@);
        lemma_picked_shape(picked@);
    }
    if out.len() == 0 {
        out.push(fallback);
    }
    out
}

/// Draws a number uniformly from `0..n` with `rand::Rng::gen_range` on the thread-local
/// generator of the `rand` crate (`rand::thread_rng`). `gen_range` returns a value in the
/// given range and panics on an empty one, hence `n > 0`; which value comes back is
/// left to chance and not stated.
#[verifier::external_body]
fn random_below(n: u32) -> (res: u32)
    requires
        n > 0,
    ensures
        res < n,
{
    rand::Rng::gen_range(&mut rand::thread_rng(), 0..n)
}

/// Draws the slots of a team mutation: each slot with probability 2/5, and one slot
/// uniformly at random when no slot came up.
pub fn pick_mutation_slots() -> (res: Vec<usize>)
    ensures
        res.len() >= 1,
        increasing_below(res@, TEAM_SLOTS as nat),
{
    let mut picked: Vec<bool> = Vec::new();
    let mut any = false;
    let mut i: usize = 0;
    while i < TEAM_SLOTS
        invariant
            i <= TEAM_SLOTS,
            picked.len() == i,
        decreases TEAM_SLOTS - i,
    {
        let hit = random_below(5) < 2;
        picked.push(hit);
        any = any || hit;
        i = i + 1;
    }
    let fallback: usize = if any { 0 } else { random_below(5) as usize };
    slots_from_draws(&picked, fallback)
}

} // verus!
