//! A model of the entities that the synthesizer owns in the engine's world.
//!
//! Entities come and go in batches: one layer root and the tiles parented
//! under it. A batch is named by the index at which it was spawned, which is
//! never used again.

use vstd::prelude::*;

verus! {

/// One layer root and the entities parented under it.
#[derive(Clone, Copy, Debug, PartialEq, Eq, Structural)]
pub struct Batch {
    /// Whether the batch's entities are still in the world.
    pub live: bool,
    /// The number of tile and collider entities under the root.
    pub tiles: usize,
}

/// Every batch that was ever spawned, in spawn order.
#[derive(Debug)]
pub struct World {
    batches: Vec<Batch>,
}

impl View for World {
    type V = Seq<Batch>;

    closed spec fn view(&self) -> Seq<Batch> {
        self.batches@
    }
}

/// The world after the batch `root` was despawned. A batch that was never
/// spawned, or is gone already, leaves the world as it is.
pub open spec fn despawned(world: Seq<Batch>, root: usize) -> Seq<Batch> {
    if root < world.len() {
        world.update(root as int, Batch { live: false, tiles: world[root as int].tiles })
    } else {
        world
    }
}

/// The world after the first `n` of `roots` were despawned.
pub open spec fn despawned_all(world: Seq<Batch>, roots: Seq<(u32, usize)>, n: int) -> Seq<Batch>
    decreases n,
{
    if n <= 0 {
        world
    } else {
        despawned(despawned_all(world, roots, n - 1), roots[n - 1].1)
    }
}

/// The number of entities in one batch: the root and its tiles, if live.
pub open spec fn batch_entities(batch: Batch) -> nat {
    if batch.live {
        1 + batch.tiles as nat
    } else {
        0
    }
}

/// The number of live entities among the first `n` batches.
pub open spec fn entities_upto(world: Seq<Batch>, n: int) -> nat
    decreases n,
{
    if n <= 0 {
        0
    } else {
        entities_upto(world, n - 1) + batch_entities(world[n - 1])
    }
}

/// The number of live entities in the world.
pub open spec fn entity_count(world: Seq<Batch>) -> nat {
    entities_upto(world, world.len() as int)
}

/// Despawning keeps the number of batches, and changes nothing but the
/// life of the batches named.
pub proof fn lemma_despawned_all(world: Seq<Batch>, roots: Seq<(u32, usize)>, n: int)
    requires
        0 <= n <= roots.len(),
    ensures
        despawned_all(world, roots, n).len() == world.len(),
        forall|b: int|
            0 <= b < world.len() ==> (#[trigger] despawned_all(world, roots, n)[b]).tiles
                == world[b].tiles,
        forall|b: int|
            0 <= b < world.len() ==> ((#[trigger] despawned_all(world, roots, n)[b]).live <==> (
            world[b].live && forall|k: int| 0 <= k < n ==> (#[trigger] roots[k]).1 != b)),
    decreases n,
{
    if n > 0 {
        lemma_despawned_all(world, roots, n - 1);
        let before = despawned_all(world, roots, n - 1);
        let after = despawned_all(world, roots, n);
        assert forall|b: int| 0 <= b < world.len() implies ((#[trigger] after[b]).live <==> (
        world[b].live && forall|k: int| 0 <= k < n ==> (#[trigger] roots[k]).1 != b)) by {
            if roots[n - 1].1 == b {
            } else if before[b].live {
                assert forall|k: int| 0 <= k < n implies (#[trigger] roots[k]).1 != b by {
                    if k < n - 1 {
                    }
                }
            }
        }
    }
}

/// The count over a prefix only looks at that prefix.
pub proof fn lemma_entities_upto_agree(a: Seq<Batch>, b: Seq<Batch>, n: int)
    requires
        0 <= n <= a.len(),
        n <= b.len(),
        forall|i: int| 0 <= i < n ==> a[i] == b[i],
    ensures
        entities_upto(a, n) == entities_upto(b, n),
    decreases n,
{
    if n > 0 {
        lemma_entities_upto_agree(a, b, n - 1);
    }
}

/// Spawning a batch adds its root and its tiles to the count.
pub proof fn lemma_entity_count_push(world: Seq<Batch>, batch: Batch)
    ensures
        entity_count(world.push(batch)) == entity_count(world) + batch_entities(batch),
{
    lemma_entities_upto_agree(world.push(batch), world, world.len() as int);
}

/// Despawning a batch takes its entities from the count, once.
pub proof fn lemma_entity_count_despawned(world: Seq<Batch>, root: usize)
    ensures
        entity_count(despawned(world, root)) + (if root < world.len() {
            batch_entities(world[root as int])
        } else {
            0
        }) == entity_count(world),
{
    if root < world.len() {
        lemma_entities_upto_despawned(world, root, world.len() as int);
    }
}

proof fn lemma_entities_upto_despawned(world: Seq<Batch>, root: usize, n: int)
    requires
        root < world.len(),
        0 <= n <= world.len(),
    ensures
        entities_upto(despawned(world, root), n) + (if root < n {
            batch_entities(world[root as int])
        } else {
            0
        }) == entities_upto(world, n),
    decreases n,
{
    if n > 0 {
        lemma_entities_upto_despawned(world, root, n - 1);
    }
}

impl World {
    /// A world without entities.
    pub fn new() -> (world: World)
        ensures
            world@ == Seq::<Batch>::empty(),
    {
        World { batches: Vec::new() }
    }

    /// The number of batches spawned so far, live or not.
    pub fn spawned(&self) -> (n: usize)
        ensures
            n == self@.len(),
    {
        self.batches.len()
    }

    /// The batch that was spawned under the name `root`.
    pub fn batch(&self, root: usize) -> (b: Option<Batch>)
        ensures
            b == if root < self@.len() {
                Some(self@[root as int])
            } else {
                None
            },
    {
        if root < self.batches.len() {
            Some(self.batches[root])
        } else {
            None
        }
    }

    /// Spawns a layer root with `tiles` entities under it and returns the
    /// name of the batch.
    pub fn spawn_batch(&mut self, tiles: usize) -> (root: usize)
        ensures
            root == old(self)@.len(),
            final(self)@ == old(self)@.push(Batch { live: true, tiles }),
    {
        let root = self.batches.len();
        self.batches.push(Batch { live: true, tiles });
        root
    }

    /// Despawns every entity under the root `root`, and the root.
    pub fn despawn_batch(&mut self, root: usize)
        ensures
            final(self)@ == despawned(old(self)@, root),
    {
        if root < self.batches.len() {
            let tiles = self.batches[root].tiles;
            self.batches[root] = Batch { live: false, tiles };
        }
    }

    /// The number of live entities, or `None` if it does not fit a `usize`.
    pub fn live_entities(&self) -> (n: Option<usize>)
        ensures
            match n {
                Some(n) => n == entity_count(self@),
                None => entity_count(self@) > usize::MAX,
            },
    {
        let mut total: usize = 0;
        let mut i: usize = 0;
        while i < self.batches.len()
            invariant
                i <= self.batches.len(),
                total == entities_upto(self@, i as int),
            decreases self.batches.len() - i,
        {
            let batch = self.batches[i];
            if batch.live {
                let with_root = match total.checked_add(1) {
                    Some(t) => t,
                    None => {
                        proof {
                            lemma_entities_upto_grows(self@, i as int + 1, self@.len() as int);
                        }
                        return None;
                    },
                };
                total = match with_root.checked_add(batch.tiles) {
                    Some(t) => t,
                    None => {
                        proof {
                            lemma_entities_upto_grows(self@, i as int + 1, self@.len() as int);
                        }
                        return None;
                    },
                };
            }
            i += 1;
        }
        Some(total)
    }
}

/// A longer prefix holds at least as many entities.
pub proof fn lemma_entities_upto_grows(world: Seq<Batch>, m: int, n: int)
    requires
        0 <= m <= n,
    ensures
        entities_upto(world, m) <= entities_upto(world, n),
    decreases n,
{
    if m < n {
        lemma_entities_upto_grows(world, m, n - 1);
    }
}

} // verus!
