//! A consistent hash ring with virtual nodes.

use vstd::prelude::*;

use crate::table::{lemma_index_of, lemma_pairing_insert, lemma_pairing_update, pairing};
use crate::text::{decimal, is_sorted, lemma_same_elements, list_contains, push_decimal, same, sort_texts, texts};

verus! {

/// Default number of virtual nodes per partition on the ring.
pub const DEFAULT_VNODES_PER_PARTITION: usize = 100;

/// The hash of a text under the standard library's default hasher.
pub uninterp spec fn text_hash(s: Seq<char>) -> u64;

/// The text hashed with `std::hash::DefaultHasher`, which starts from the same
/// state every time. The hash is a function of the text; nothing else is
/// claimed of it.
#[verifier::external_body]
fn hash_text(s: &str) -> (r: u64)
    ensures
        r == text_hash(s@),
{
    let mut hasher = std::hash::DefaultHasher::new();
    std::hash::Hash::hash(s, &mut hasher);
    std::hash::Hasher::finish(&hasher)
}

/// The text whose hash places the virtual node `i` of a partition.
pub open spec fn vnode_key(partition: Seq<char>, i: nat) -> Seq<char> {
    partition + "#vnode_"@ + decimal(i)
}

/// How far clockwise the point `x` lies from `h` on the ring of 64-bit hashes.
pub open spec fn clockwise_distance(h: u64, x: u64) -> int {
    if x >= h {
        x - h
    } else {
        x - h + 0x1_0000_0000_0000_0000
    }
}

/// The point `q` is the nearest one clockwise of `h`.
pub open spec fn nearest(points: Map<u64, Seq<char>>, h: u64, q: u64) -> bool {
    &&& points.contains_key(q)
    &&& forall|x: u64| #[trigger]
        points.contains_key(x) ==> clockwise_distance(h, q) <= clockwise_distance(h, x)
}

/// The partition of the nearest point clockwise of `h` is `p`.
pub open spec fn owns(points: Map<u64, Seq<char>>, h: u64, p: Seq<char>) -> bool {
    exists|q: u64| #[trigger] nearest(points, h, q) && points[q] == p
}

/// The partition that a key is assigned to: the one whose virtual node is
/// nearest clockwise of the key's hash; none on an empty ring.
pub open spec fn assigned(points: Map<u64, Seq<char>>, key: Seq<char>) -> Option<Seq<char>> {
    if points =~= Map::<u64, Seq<char>>::empty() {
        None
    } else {
        Some(choose|p: Seq<char>| owns(points, text_hash(key), p))
    }
}

/// The points with the first `n` virtual nodes of a partition put on the ring.
pub open spec fn with_vnodes(points: Map<u64, Seq<char>>, partition: Seq<char>, n: nat) -> Map<
    u64,
    Seq<char>,
>
    decreases n,
{
    if n == 0 {
        points
    } else {
        with_vnodes(points, partition, (n - 1) as nat).insert(
            text_hash(vnode_key(partition, (n - 1) as nat)),
            partition,
        )
    }
}

/// The points without those of a partition.
pub open spec fn without(points: Map<u64, Seq<char>>, partition: Seq<char>) -> Map<u64, Seq<char>> {
    Map::new(
        |h: u64| points.contains_key(h) && points[h] != partition,
        |h: u64| points[h],
    )
}

/// A ring: its virtual nodes per partition, its points, and its partitions.
pub struct RingModel {
    pub vnodes: nat,
    pub points: Map<u64, Seq<char>>,
    pub members: Set<Seq<char>>,
}

impl RingModel {
    /// The ring with a partition added; one that is there already changes nothing.
    pub open spec fn add(self, partition: Seq<char>) -> RingModel {
        if self.members.contains(partition) {
            self
        } else {
            RingModel {
                vnodes: self.vnodes,
                points: with_vnodes(self.points, partition, self.vnodes),
                members: self.members.insert(partition),
            }
        }
    }

    /// The ring with a partition removed; one that is not there changes nothing.
    pub open spec fn remove(self, partition: Seq<char>) -> RingModel {
        if self.members.contains(partition) {
            RingModel {
                vnodes: self.vnodes,
                points: without(self.points, partition),
                members: self.members.remove(partition),
            }
        } else {
            self
        }
    }

    /// Every point belongs to a partition of the ring, and there is a virtual node
    /// per partition at least.
    pub open spec fn sound(self) -> bool {
        &&& self.vnodes >= 1
        &&& forall|h: u64| #[trigger]
            self.points.contains_key(h) ==> self.members.contains(self.points[h])
    }

    /// Every partition has all its virtual nodes: none fell on a point of another
    /// partition.
    pub open spec fn intact(self) -> bool {
        forall|name: Seq<char>, i: nat|
            self.members.contains(name) && i < self.vnodes ==> self.has_vnode(name, i)
    }

    /// The virtual node `i` of a partition is on the ring.
    pub open spec fn has_vnode(self, name: Seq<char>, i: nat) -> bool {
        let h = text_hash(vnode_key(name, i));
        self.points.contains_key(h) && self.points[h] == name
    }

    /// The ring with partitions added one after another.
    pub open spec fn add_all(self, partitions: Seq<Seq<char>>) -> RingModel
        decreases partitions.len(),
    {
        if partitions.len() == 0 {
            self
        } else {
            self.add_all(partitions.drop_last()).add(partitions.last())
        }
    }
}

/// The empty ring.
pub open spec fn empty_ring(vnodes: nat) -> RingModel {
    RingModel {
        vnodes: if vnodes == 0 { 1 } else { vnodes },
        points: Map::empty(),
        members: Set::empty(),
    }
}

/// No two points are nearest clockwise of the same hash.
pub proof fn nearest_is_unique(points: Map<u64, Seq<char>>, h: u64, q1: u64, q2: u64)
    requires
        nearest(points, h, q1),
        nearest(points, h, q2),
    ensures
        q1 == q2,
{
    assert(points.contains_key(q1) && points.contains_key(q2));
}

/// A key is assigned to the partition of the nearest point, and to no other.
pub proof fn assigned_is_owner(points: Map<u64, Seq<char>>, key: Seq<char>, q: u64)
    requires
        nearest(points, text_hash(key), q),
    ensures
        assigned(points, key) == Some(points[q]),
{
    let h = text_hash(key);
    assert(points.contains_key(q));
    assert(!(points =~= Map::<u64, Seq<char>>::empty()));
    assert(owns(points, h, points[q]));
    let p = choose|p: Seq<char>| owns(points, h, p);
    assert(owns(points, h, p));
    let q2 = choose|q2: u64| #[trigger] nearest(points, h, q2) && points[q2] == p;
    nearest_is_unique(points, h, q, q2);
}

/// On a ring with points some point is nearest clockwise of a hash.
proof fn lemma_nearest_exists(points: Map<u64, Seq<char>>, h: u64, x: u64)
    requires
        points.contains_key(x),
    ensures
        exists|q: u64| nearest(points, h, q),
    decreases clockwise_distance(h, x),
{
    if !nearest(points, h, x) {
        let y = choose|y: u64| #[trigger]
            points.contains_key(y) && clockwise_distance(h, x) > clockwise_distance(h, y);
        lemma_nearest_exists(points, h, y);
    }
}

/// A key is assigned where there are points, to the partition that owns its
/// hash.
pub proof fn lemma_assigned(points: Map<u64, Seq<char>>, key: Seq<char>)
    ensures
        assigned(points, key) is Some <==> !(points =~= Map::<u64, Seq<char>>::empty()),
        assigned(points, key) matches Some(p) ==> owns(points, text_hash(key), p),
{
    if !(points =~= Map::<u64, Seq<char>>::empty()) {
        let x = choose|x: u64| points.contains_key(x);
        assert(points.contains_key(x)) by {
            if forall|y: u64| !points.contains_key(y) {
                assert(points =~= Map::<u64, Seq<char>>::empty());
            }
        }
        lemma_nearest_exists(points, text_hash(key), x);
        let q = choose|q: u64| nearest(points, text_hash(key), q);
        assigned_is_owner(points, key, q);
        assert(owns(points, text_hash(key), points[q]));
    }
}

/// A key is assigned to the partition that owns its hash, and to no other.
pub proof fn lemma_owner_is_assigned(points: Map<u64, Seq<char>>, key: Seq<char>, p: Seq<char>)
    requires
        owns(points, text_hash(key), p),
    ensures
        assigned(points, key) == Some(p),
{
    let q = choose|q: u64| #[trigger] nearest(points, text_hash(key), q) && points[q] == p;
    assigned_is_owner(points, key, q);
}

/// Keys are assigned to partitions of the ring only.
pub proof fn keys_are_assigned_to_members(ring: RingModel, key: Seq<char>)
    requires
        ring.sound(),
    ensures
        assigned(ring.points, key) matches Some(p) ==> ring.members.contains(p),
{
    lemma_assigned(ring.points, key);
    if let Some(p) = assigned(ring.points, key) {
        let q = choose|q: u64| #[trigger]
            nearest(ring.points, text_hash(key), q) && ring.points[q] == p;
        assert(ring.points.contains_key(q));
    }
}

/// A partition that was removed, or never added, is assigned no key.
pub proof fn removed_partitions_get_no_keys(ring: RingModel, partition: Seq<char>, key: Seq<char>)
    requires
        ring.sound(),
    ensures
        ring.remove(partition).sound(),
        assigned(ring.remove(partition).points, key) != Some(partition),
        !ring.members.contains(partition) ==> assigned(ring.points, key) != Some(partition),
{
    let rest = ring.remove(partition);
    assert forall|h: u64| #[trigger] rest.points.contains_key(h) implies rest.members.contains(
        rest.points[h],
    ) by {
        assert(ring.points.contains_key(h));
    }
    keys_are_assigned_to_members(rest, key);
    keys_are_assigned_to_members(ring, key);
}

/// On an intact ring a key is assigned unless there are no partitions.
pub proof fn intact_rings_assign_every_key(ring: RingModel, key: Seq<char>)
    requires
        ring.sound(),
        ring.intact(),
    ensures
        assigned(ring.points, key) is None <==> ring.members =~= Set::<Seq<char>>::empty(),
{
    lemma_assigned(ring.points, key);
    if !(ring.members =~= Set::<Seq<char>>::empty()) {
        let name = choose|name: Seq<char>| ring.members.contains(name);
        assert(ring.members.contains(name)) by {
            if forall|n: Seq<char>| !ring.members.contains(n) {
                assert(ring.members =~= Set::<Seq<char>>::empty());
            }
        }
        assert(ring.has_vnode(name, 0));
    } else {
        assert(ring.points =~= Map::<u64, Seq<char>>::empty());
    }
}

/// Rings stay intact as partitions come and go, as long as no virtual node of a
/// partition that comes falls on a point that is there.
pub proof fn rings_stay_intact(ring: RingModel, partition: Seq<char>)
    requires
        ring.sound(),
        ring.intact(),
    ensures
        empty_ring(ring.vnodes).intact(),
        ring.remove(partition).intact(),
        no_collision(ring, partition) ==> ring.add(partition).intact(),
{
    let rest = ring.remove(partition);
    assert forall|name: Seq<char>, i: nat| rest.members.contains(name) && i < rest.vnodes implies rest.has_vnode(
        name,
        i,
    ) by {
        assert(ring.has_vnode(name, i));
    }
    if no_collision(ring, partition) && !ring.members.contains(partition) {
        let grown = ring.add(partition);
        assert forall|name: Seq<char>, i: nat|
            grown.members.contains(name) && i < grown.vnodes implies grown.has_vnode(name, i) by {
            let h = text_hash(vnode_key(name, i));
            if name == partition {
                lemma_vnodes_are_placed(ring.points, partition, ring.vnodes, i);
            } else {
                assert(ring.has_vnode(name, i));
                lemma_vnodes_keep_points(ring.points, partition, ring.vnodes, h);
            }
        }
    }
}

proof fn lemma_vnodes_are_placed(
    points: Map<u64, Seq<char>>,
    partition: Seq<char>,
    n: nat,
    i: nat,
)
    requires
        i < n,
    ensures
        ({
            let h = text_hash(vnode_key(partition, i));
            let placed = with_vnodes(points, partition, n);
            placed.contains_key(h) && placed[h] == partition
        }),
    decreases n,
{
    if i < n - 1 {
        lemma_vnodes_are_placed(points, partition, (n - 1) as nat, i);
    }
}

proof fn lemma_vnodes_keep_points(
    points: Map<u64, Seq<char>>,
    partition: Seq<char>,
    n: nat,
    h: u64,
)
    requires
        points.contains_key(h),
        forall|i: nat|
            i < n ==> !points.contains_key(text_hash(#[trigger] vnode_key(partition, i))),
    ensures
        with_vnodes(points, partition, n).contains_key(h),
        with_vnodes(points, partition, n)[h] == points[h],
    decreases n,
{
    if n > 0 {
        lemma_vnodes_keep_points(points, partition, (n - 1) as nat, h);
        assert(!points.contains_key(text_hash(vnode_key(partition, (n - 1) as nat))));
    }
}

proof fn lemma_with_vnodes(points: Map<u64, Seq<char>>, partition: Seq<char>, n: nat)
    ensures
        forall|h: u64| #[trigger]
            points.contains_key(h) ==> with_vnodes(points, partition, n).contains_key(h),
        forall|h: u64| #[trigger]
            with_vnodes(points, partition, n).contains_key(h) ==> with_vnodes(
                points,
                partition,
                n,
            )[h] == partition || (points.contains_key(h) && with_vnodes(points, partition, n)[h]
                == points[h]),
    decreases n,
{
    if n > 0 {
        lemma_with_vnodes(points, partition, (n - 1) as nat);
        let inner = with_vnodes(points, partition, (n - 1) as nat);
        let outer = with_vnodes(points, partition, n);
        assert forall|h: u64| #[trigger] outer.contains_key(h) implies outer[h] == partition || (
        points.contains_key(h) && outer[h] == points[h]) by {
            if outer[h] != partition {
                assert(inner.contains_key(h));
            }
        }
    }
}

/// A ring with a partition more is sound and keeps its points, though maybe not
/// their partitions.
pub proof fn lemma_grown_ring(ring: RingModel, partition: Seq<char>)
    requires
        ring.sound(),
    ensures
        ring.add(partition).sound(),
        forall|h: u64| #[trigger]
            ring.points.contains_key(h) ==> ring.add(partition).points.contains_key(h),
{
    lemma_with_vnodes(ring.points, partition, ring.vnodes);
}

/// Adding a partition moves keys to it and to no other: a key keeps its
/// partition or is assigned to the new one.
pub proof fn adding_moves_keys_only_to_the_new_partition(
    ring: RingModel,
    partition: Seq<char>,
    h: u64,
    before: Seq<char>,
    after: Seq<char>,
)
    requires
        owns(ring.points, h, before),
        owns(ring.add(partition).points, h, after),
    ensures
        after == before || after == partition,
{
    let grown = ring.add(partition).points;
    lemma_with_vnodes(ring.points, partition, ring.vnodes);
    let q1 = choose|q: u64| #[trigger] nearest(ring.points, h, q) && ring.points[q] == before;
    let q2 = choose|q: u64| #[trigger] nearest(grown, h, q) && grown[q] == after;
    if after != partition {
        assert(ring.points.contains_key(q2));
        assert(grown.contains_key(q1));
        assert(clockwise_distance(h, q1) == clockwise_distance(h, q2));
        assert(q1 == q2);
    }
}

/// Removing a partition moves the keys of that partition and no others.
pub proof fn removing_keeps_the_keys_of_other_partitions(
    ring: RingModel,
    partition: Seq<char>,
    h: u64,
    before: Seq<char>,
)
    requires
        owns(ring.points, h, before),
        before != partition,
    ensures
        owns(ring.remove(partition).points, h, before),
{
    let q = choose|q: u64| #[trigger] nearest(ring.points, h, q) && ring.points[q] == before;
    let rest = ring.remove(partition).points;
    assert(nearest(rest, h, q)) by {
        assert(rest.contains_key(q));
        assert forall|x: u64| #[trigger] rest.contains_key(x) implies clockwise_distance(h, q)
            <= clockwise_distance(h, x) by {
            assert(ring.points.contains_key(x));
        }
    }
}

/// No virtual node of `partition` falls on a point of the ring.
pub open spec fn no_collision(ring: RingModel, partition: Seq<char>) -> bool {
    forall|i: nat|
        i < ring.vnodes ==> !ring.points.contains_key(
            text_hash(#[trigger] vnode_key(partition, i)),
        )
}

proof fn lemma_with_vnodes_without(points: Map<u64, Seq<char>>, partition: Seq<char>, n: nat)
    requires
        forall|h: u64| #[trigger] points.contains_key(h) ==> points[h] != partition,
        forall|i: nat|
            i < n ==> !points.contains_key(text_hash(#[trigger] vnode_key(partition, i))),
    ensures
        without(with_vnodes(points, partition, n), partition) == points,
    decreases n,
{
    if n > 0 {
        lemma_with_vnodes_without(points, partition, (n - 1) as nat);
        let inner = with_vnodes(points, partition, (n - 1) as nat);
        let h = text_hash(vnode_key(partition, (n - 1) as nat));
        assert(!points.contains_key(h));
        assert forall|x: u64| #[trigger] without(inner.insert(h, partition), partition).contains_key(x)
            <==> without(inner, partition).contains_key(x) by {
            assert(without(inner, partition).contains_key(h) == points.contains_key(h));
        }
        assert(without(inner.insert(h, partition), partition) =~= without(inner, partition));
    } else {
        assert(without(points, partition) =~= points);
    }
}

/// Removing a partition right after adding it gives the ring back, where none
/// of its virtual nodes fell on a point that was there.
pub proof fn removing_undoes_adding(ring: RingModel, partition: Seq<char>)
    requires
        !ring.members.contains(partition),
        ring.sound(),
        no_collision(ring, partition),
    ensures
        ring.add(partition).remove(partition) == ring,
{
    lemma_with_vnodes_without(ring.points, partition, ring.vnodes);
    assert(ring.members.insert(partition).remove(partition) =~= ring.members);
}

/// Consistent hash ring with virtual nodes for key-to-partition assignment.
pub struct ConsistentHashRing {
    vnodes_per_partition: usize,
    /// The points, in ascending order.
    hashes: Vec<u64>,
    /// The partition of each point.
    owners: Vec<String>,
    partitions: Vec<String>,
}

impl ConsistentHashRing {
    pub closed spec fn view(&self) -> RingModel {
        RingModel {
            vnodes: self.vnodes_per_partition as nat,
            points: pairing(self.hashes@, texts(self.owners@)),
            members: texts(self.partitions@).to_set(),
        }
    }

    /// There is at least one virtual node per partition, the points are in
    /// order, no partition is listed twice, and each point belongs to a
    /// listed partition.
    pub closed spec fn wf(&self) -> bool {
        &&& self.vnodes_per_partition >= 1
        &&& self.hashes.len() == self.owners.len()
        &&& forall|i: int, j: int|
            0 <= i < j < self.hashes.len() ==> self.hashes[i] < self.hashes[j]
        &&& texts(self.partitions@).no_duplicates()
        &&& forall|i: int|
            0 <= i < self.owners.len() ==> texts(self.partitions@).contains(
                #[trigger] texts(self.owners@)[i],
            )
    }

    /// Every point belongs to a partition of the ring.
    pub proof fn lemma_points_belong(&self)
        requires
            self.wf(),
        ensures
            self@.sound(),
    {
        assert forall|h: u64| #[trigger] self@.points.contains_key(h) implies self@.members.contains(
            self@.points[h],
        ) by {
            let i = self.hashes@.index_of(h);
            assert(self.hashes@.contains(h));
            assert(texts(self.partitions@).contains(texts(self.owners@)[i]));
        }
    }

    /// There are finitely many partitions.
    pub proof fn lemma_members_are_finite(&self)
        requires
            self.wf(),
        ensures
            self@.members.finite(),
    {
        texts(self.partitions@).unique_seq_to_set();
    }

    /// A ring without partitions; at least one virtual node per partition.
    pub fn new(vnodes_per_partition: usize) -> (r: Self)
        ensures
            r.wf(),
            r@ == empty_ring(vnodes_per_partition as nat),
    {
        let r = ConsistentHashRing {
            vnodes_per_partition: if vnodes_per_partition == 0 { 1 } else { vnodes_per_partition },
            hashes: Vec::new(),
            owners: Vec::new(),
            partitions: Vec::new(),
        };
        assert(r@.points =~= Map::empty());
        assert(r@.members =~= Set::empty());
        r
    }

    /// A ring with the given partitions, added one after another.
    pub fn with_partitions(partitions: &[&str], vnodes_per_partition: usize) -> (r: Self)
        ensures
            r.wf(),
            r@ == empty_ring(vnodes_per_partition as nat).add_all(
                partitions@.map_values(|p: &str| p@),
            ),
    {
        let mut ring = ConsistentHashRing::new(vnodes_per_partition);
        let ghost names = partitions@.map_values(|p: &str| p@);
        let mut i: usize = 0;
        assert(names.take(0) =~= Seq::empty());
        while i < partitions.len()
            invariant
                i <= partitions.len(),
                names == partitions@.map_values(|p: &str| p@),
                ring.wf(),
                ring@ == empty_ring(vnodes_per_partition as nat).add_all(names.take(i as int)),
            decreases partitions.len() - i,
        {
            ring.add_partition(partitions[i]);
            proof {
                assert(names.take(i + 1).drop_last() =~= names.take(i as int));
                assert(names.take(i + 1).last() == partitions[i as int]@);
            }
            i = i + 1;
        }
        assert(names.take(i as int) =~= names);
        ring
    }

    /// The number of points before `hash`.
    fn lower_bound(&self, hash: u64) -> (r: usize)
        requires
            self.wf(),
        ensures
            r <= self.hashes.len(),
            forall|i: int| 0 <= i < r ==> self.hashes[i] < hash,
            forall|i: int| r <= i < self.hashes.len() ==> self.hashes[i] >= hash,
    {
        let mut low: usize = 0;
        let mut high: usize = self.hashes.len();
        while low < high
            invariant
                self.wf(),
                low <= high <= self.hashes.len(),
                forall|i: int| 0 <= i < low ==> self.hashes[i] < hash,
                forall|i: int| high <= i < self.hashes.len() ==> self.hashes[i] >= hash,
            decreases high - low,
        {
            let mid = low + (high - low) / 2;
            if self.hashes[mid] < hash {
                low = mid + 1;
            } else {
                high = mid;
            }
        }
        low
    }

    /// Puts one point on the ring.
    fn put(&mut self, hash: u64, partition_id: &str)
        requires
            old(self).wf(),
            old(self)@.members.contains(partition_id@),
        ensures
            final(self).wf(),
            final(self)@ == (RingModel {
                points: old(self)@.points.insert(hash, partition_id@),
                ..old(self)@
            }),
    {
        let at = self.lower_bound(hash);
        let ghost owners = texts(self.owners@);
        let ghost before = *self;
        if at < self.hashes.len() && self.hashes[at] == hash {
            self.owners.set(at, partition_id.to_owned());
            proof {
                assert(texts(self.owners@) =~= owners.update(at as int, partition_id@));
                lemma_pairing_update(before.hashes@, owners, at as int, partition_id@);
            }
        } else {
            self.hashes.insert(at, hash);
            self.owners.insert(at, partition_id.to_owned());
            proof {
                assert(texts(self.owners@) =~= owners.insert(at as int, partition_id@));
                lemma_pairing_insert(before.hashes@, owners, at as int, hash, partition_id@);
            }
        }
        proof {
            assert forall|i: int| 0 <= i < self.owners.len() implies texts(
                self.partitions@,
            ).contains(#[trigger] texts(self.owners@)[i]) by {
                if texts(self.owners@)[i] != partition_id@ {
                    let j = if self.owners.len() == before.owners.len() || i < at { i } else { i - 1 };
                    assert(texts(self.owners@)[i] == texts(before.owners@)[j]);
                }
            }
        }
    }

    /// Adds a partition to the ring and places its virtual nodes.
    pub fn add_partition(&mut self, partition_id: &str)
        requires
            old(self).wf(),
        ensures
            final(self).wf(),
            final(self)@ == old(self)@.add(partition_id@),
    {
        if !list_contains(&self.partitions, partition_id) {
            let ghost before = self@;
            let ghost names = texts(self.partitions@);
            self.partitions.push(partition_id.to_owned());
            proof {
                assert(texts(self.partitions@) =~= names.push(partition_id@));
                assert(texts(self.partitions@).to_set() =~= names.to_set().insert(partition_id@)) by {
                    assert forall|k: Seq<char>| #[trigger] names.push(partition_id@).contains(k)
                        <==> (names.contains(k) || k == partition_id@) by {
                        if names.contains(k) {
                            assert(names.push(partition_id@)[names.index_of(k)] == k);
                        }
                        if k == partition_id@ {
                            assert(names.push(partition_id@)[names.len() as int] == k);
                        }
                    }
                }
                assert forall|i: int| 0 <= i < self.owners.len() implies texts(
                    self.partitions@,
                ).contains(#[trigger] texts(self.owners@)[i]) by {
                    assert(names.contains(texts(self.owners@)[i]));
                    assert(texts(self.partitions@)[names.index_of(texts(self.owners@)[i])]
                        == texts(self.owners@)[i]);
                }
            }
            let mut i: usize = 0;
            while i < self.vnodes_per_partition
                invariant
                    i <= self.vnodes_per_partition,
                    self.wf(),
                    self@.vnodes == before.vnodes == self.vnodes_per_partition,
                    self@.members == before.members.insert(partition_id@),
                    self@.points == with_vnodes(before.points, partition_id@, i as nat),
                decreases self.vnodes_per_partition - i,
            {
                let mut vnode = partition_id.to_owned();
                vnode.append("#vnode_");
                push_decimal(&mut vnode, i as u128);
                let hash = hash_text(vnode.as_str());
                self.put(hash, partition_id);
                i = i + 1;
            }
        }
    }

    /// Removes a partition and its virtual nodes from the ring.
    pub fn remove_partition(&mut self, partition_id: &str)
        requires
            old(self).wf(),
        ensures
            final(self).wf(),
            final(self)@ == old(self)@.remove(partition_id@),
    {
        let ghost before = *self;
        let mut at: usize = 0;
        while at < self.partitions.len() && !same(self.partitions[at].as_str(), partition_id)
            invariant
                at <= self.partitions.len(),
                forall|i: int| 0 <= i < at ==> #[trigger] texts(self.partitions@)[i] != partition_id@,
            decreases self.partitions.len() - at,
        {
            assert(texts(self.partitions@)[at as int] == self.partitions[at as int]@);
            at = at + 1;
        }
        if at == self.partitions.len() {
            assert(!texts(self.partitions@).contains(partition_id@));
            return;
        }
        let ghost names = texts(self.partitions@);
        assert(names[at as int] == partition_id@);
        let mut hashes: Vec<u64> = Vec::new();
        let mut owners: Vec<String> = Vec::new();
        let mut i: usize = 0;
        while i < self.hashes.len()
            invariant
                *self == before,
                before.wf(),
                i <= self.hashes.len(),
                hashes.len() == owners.len(),
                forall|a: int, b: int| 0 <= a < b < hashes.len() ==> hashes[a] < hashes[b],
                forall|a: int|
                    0 <= a < hashes.len() ==> i > 0 && #[trigger] hashes[a] <= before.hashes[i - 1],
                forall|a: int|
                    0 <= a < hashes.len() ==> before@.points.contains_key(#[trigger] hashes[a])
                        && before@.points[hashes[a]] == texts(owners@)[a] && texts(owners@)[a]
                        != partition_id@,
                forall|b: int|
                    0 <= b < i && texts(before.owners@)[b] != partition_id@ ==> hashes@.contains(
                        #[trigger] before.hashes[b],
                    ),
            decreases self.hashes.len() - i,
        {
            let ghost earlier = hashes@;
            if !same(self.owners[i].as_str(), partition_id) {
                hashes.push(self.hashes[i]);
                owners.push(self.owners[i].clone());
                proof {
                    lemma_index_of(before.hashes@, i as int);
                    assert(hashes@.last() == before.hashes[i as int]);
                }
            }
            proof {
                assert forall|b: int|
                    0 <= b < i + 1 && texts(before.owners@)[b] != partition_id@ implies hashes@.contains(
                    #[trigger] before.hashes[b],
                ) by {
                    if b < i {
                        let x = before.hashes[b];
                        assert(hashes@[earlier.index_of(x)] == x);
                    } else {
                        assert(hashes@[hashes.len() - 1] == before.hashes[b]);
                    }
                }
            }
            i = i + 1;
        }
        self.hashes = hashes;
        self.owners = owners;
        let _name = self.partitions.remove(at);
        proof {
            assert(texts(self.partitions@) =~= names.remove(at as int));
            let left = self@.points;
            let right = without(before@.points, partition_id@);
            assert forall|h: u64| #[trigger] left.contains_key(h) <==> right.contains_key(h) by {
                if left.contains_key(h) {
                    let a = self.hashes@.index_of(h);
                    assert(self.hashes@.contains(h));
                    assert(self.hashes[a] == h);
                }
                if right.contains_key(h) {
                    let b = before.hashes@.index_of(h);
                    assert(before.hashes@.contains(h));
                    assert(before.hashes[b] == h);
                }
            }
            assert forall|h: u64| #[trigger] left.contains_key(h) implies left[h] == right[h] by {
                let a = self.hashes@.index_of(h);
                assert(self.hashes@.contains(h));
                assert(self.hashes[a] == h);
            }
            assert(left =~= right);
            lemma_removed(names, at as int);
            assert(self@.members =~= before@.members.remove(partition_id@));
            assert forall|k: int| 0 <= k < self.owners.len() implies texts(
                self.partitions@,
            ).contains(#[trigger] texts(self.owners@)[k]) by {
                let h = self.hashes[k];
                assert(before@.points.contains_key(h));
                before.lemma_points_belong();
            }
        }
    }

    /// Assigns a key to a partition: the one whose virtual node is nearest
    /// clockwise of the key's hash.
    pub fn get_partition(&self, key: &str) -> (r: Option<&str>)
        requires
            self.wf(),
        ensures
            match r {
                Some(p) => assigned(self@.points, key@) == Some(p@) && self@.members.contains(p@),
                None => assigned(self@.points, key@) is None,
            },
            self@.intact() ==> (r is None <==> self@.members =~= Set::<Seq<char>>::empty()),
    {
        proof {
            self.lemma_points_belong();
            if self@.intact() {
                intact_rings_assign_every_key(self@, key@);
            }
        }
        if self.hashes.is_empty() {
            assert(self@.points =~= Map::empty());
            return None;
        }
        let hash = hash_text(key);
        let at = self.lower_bound(hash);
        let index: usize = if at < self.hashes.len() { at } else { 0 };
        proof {
            let points = self@.points;
            let q = self.hashes[index as int];
            lemma_index_of(self.hashes@, index as int);
            assert forall|x: u64| #[trigger] points.contains_key(x) implies clockwise_distance(hash, q)
                <= clockwise_distance(hash, x) by {
                let j = self.hashes@.index_of(x);
                assert(self.hashes@.contains(x));
                assert(self.hashes[j] == x);
                assert(self.hashes[0] <= x);
                if j > index {
                    assert(q < x);
                }
            }
            assert(nearest(points, hash, q));
            assigned_is_owner(points, key@, q);
        }
        Some(self.owners[index].as_str())
    }

    /// The number of partitions on the ring.
    pub fn partition_count(&self) -> (r: usize)
        requires
            self.wf(),
        ensures
            self@.members.finite(),
            r == self@.members.len(),
    {
        proof {
            texts(self.partitions@).unique_seq_to_set();
        }
        self.partitions.len()
    }

    /// The names of the partitions, in order.
    pub fn partitions(&self) -> (r: Vec<String>)
        requires
            self.wf(),
        ensures
            is_sorted(texts(r@)),
            texts(r@).no_duplicates(),
            texts(r@).to_set() == self@.members,
    {
        let r = sort_texts(&self.partitions);
        proof {
            lemma_same_elements(texts(r@), texts(self.partitions@));
        }
        r
    }
}

impl Default for ConsistentHashRing {
    fn default() -> (r: Self)
        ensures
            r.wf(),
            r@ == empty_ring(DEFAULT_VNODES_PER_PARTITION as nat),
    {
        ConsistentHashRing::new(DEFAULT_VNODES_PER_PARTITION)
    }
}

/// Removing one place from a list without duplicates removes its element.
proof fn lemma_removed(names: Seq<Seq<char>>, at: int)
    requires
        names.no_duplicates(),
        0 <= at < names.len(),
    ensures
        names.remove(at).no_duplicates(),
        names.remove(at).to_set() == names.to_set().remove(names[at]),
{
    let rest = names.remove(at);
    assert forall|a: int, b: int| 0 <= a < rest.len() && 0 <= b < rest.len() && a != b implies rest[a] != rest[b] by {
        let a2 = if a < at { a } else { a + 1 };
        let b2 = if b < at { b } else { b + 1 };
        assert(rest[a] == names[a2] && rest[b] == names[b2]);
    }
    assert forall|k: Seq<char>| #[trigger] rest.contains(k) <==> names.contains(k) && k != names[at] by {
        if rest.contains(k) {
            let a = rest.index_of(k);
            let a2 = if a < at { a } else { a + 1 };
            assert(names[a2] == k);
        }
        if names.contains(k) && k != names[at] {
            let a = names.index_of(k);
            assert(rest[if a < at { a } else { a - 1 }] == k);
        }
    }
    assert(rest.to_set() =~= names.to_set().remove(names[at]));
}

/// A key goes to the partition of the first point from its hash on; where there is none
/// that far, it goes to the partition of the first point of all.
pub proof fn keys_go_to_the_next_point(points: Map<u64, Seq<char>>, key: Seq<char>, q: u64)
    requires
        points.contains_key(q),
        ({
            let h = text_hash(key);
            ||| q >= h && forall|x: u64| #[trigger] points.contains_key(x) ==> x < h || x >= q
            ||| forall|x: u64| #[trigger] points.contains_key(x) ==> q <= x < h
        }),
    ensures
        assigned(points, key) == Some(points[q]),
{
    assert(nearest(points, text_hash(key), q));
    assigned_is_owner(points, key, q);
}

/// A partition that is added has its virtual nodes on the ring, each at the hash of the
/// partition's name with the node's number; adding it again changes nothing, and other
/// partitions stay on the ring.
pub proof fn added_partitions_have_their_points(
    ring: RingModel,
    partition: Seq<char>,
    i: nat,
    other: Seq<char>,
)
    requires
        i < ring.vnodes,
        !ring.members.contains(partition),
    ensures
        ring.add(partition).points.contains_key(
            text_hash(partition + "#vnode_"@ + decimal(i)),
        ),
        ring.add(partition).points[text_hash(partition + "#vnode_"@ + decimal(i))] == partition,
        ring.add(partition).members.contains(partition),
        ring.add(partition).add(partition) == ring.add(partition),
        ring.members.contains(other) ==> ring.add(partition).members.contains(other),
{
    lemma_vnode_is_there(ring.points, partition, ring.vnodes, i);
}

proof fn lemma_vnode_is_there(points: Map<u64, Seq<char>>, partition: Seq<char>, n: nat, i: nat)
    requires
        i < n,
    ensures
        with_vnodes(points, partition, n).contains_key(text_hash(vnode_key(partition, i))),
        with_vnodes(points, partition, n)[text_hash(vnode_key(partition, i))] == partition,
    decreases n,
{
    if i < n - 1 {
        lemma_vnode_is_there(points, partition, (n - 1) as nat, i);
    }
}

} // verus!
