//! Merkle trees with odd-node promotion: at each level consecutive pairs are
//! hashed, and a final unpaired node is carried up unchanged.
use vstd::prelude::*;
use crate::hash::HashFunction;
use crate::integer::Integer;

verus! {

/// The values of a sequence of integers.
pub open spec fn values(s: Seq<Integer>) -> Seq<int> {
    s.map_values(|x: Integer| x@)
}

/// The values of an authentication path.
pub open spec fn path_values(s: Seq<(Integer, bool)>) -> Seq<(int, bool)> {
    s.map_values(|e: (Integer, bool)| (e.0@, e.1))
}

/// The level above `nodes`: each pair hashed, a last unpaired node promoted.
pub open spec fn next_level<H: HashFunction>(nodes: Seq<int>, h: H) -> Seq<int> {
    Seq::new(
        ((nodes.len() + 1) / 2) as nat,
        |i: int|
            if 2 * i + 1 < nodes.len() {
                h.hash_spec(nodes[2 * i], nodes[2 * i + 1])
            } else {
                nodes[2 * i]
            },
    )
}

/// The root: levels are built until one node is left.
pub open spec fn root_of<H: HashFunction>(nodes: Seq<int>, h: H) -> int
    decreases nodes.len(),
{
    if nodes.len() <= 1 {
        nodes[0]
    } else {
        root_of(next_level(nodes, h), h)
    }
}

/// The authentication path of the node at `index`, from its level up: at each
/// level the sibling (`index + 1` when `index` is even, `index - 1` when odd)
/// and whether the node is a left child; no entry at a level where the node
/// has no sibling.
pub open spec fn path_of<H: HashFunction>(nodes: Seq<int>, index: int, h: H) -> Seq<(int, bool)>
    decreases nodes.len(),
{
    if nodes.len() <= 1 {
        Seq::empty()
    } else {
        let sibling = if index % 2 == 0 { index + 1 } else { index - 1 };
        let step = if sibling < nodes.len() {
            seq![(nodes[sibling], index % 2 == 0)]
        } else {
            Seq::empty()
        };
        step + path_of(next_level(nodes, h), index / 2, h)
    }
}

/// The value reached by climbing `path` from `value`: at each entry the current
/// value is hashed with the sibling, on the left when the flag is set.
pub open spec fn climb<H: HashFunction>(value: int, path: Seq<(int, bool)>, h: H) -> int
    decreases path.len(),
{
    if path.len() == 0 {
        value
    } else {
        let parent = if path[0].1 {
            h.hash_spec(value, path[0].0)
        } else {
            h.hash_spec(path[0].0, value)
        };
        climb(parent, path.drop_first(), h)
    }
}

/// Distinct argument pairs hash to distinct values.
pub open spec fn hash_injective<H: HashFunction>(h: H) -> bool {
    forall|a: int, b: int, c: int, d: int|
        #[trigger] h.hash_spec(a, b) == #[trigger] h.hash_spec(c, d) ==> a == c && b == d
}

/// Climbing a node's authentication path from its value reaches the root.
/// This holds for every leaf count, powers of two among them.
pub proof fn lemma_path_reaches_root<H: HashFunction>(nodes: Seq<int>, index: int, h: H)
    requires
        0 <= index < nodes.len(),
    ensures
        climb(nodes[index], path_of(nodes, index, h), h) == root_of(nodes, h),
    decreases nodes.len(),
{
    if nodes.len() > 1 {
        let next = next_level(nodes, h);
        lemma_path_reaches_root(next, index / 2, h);
        let sibling = if index % 2 == 0 { index + 1 } else { index - 1 };
        let rest = path_of(next, index / 2, h);
        if sibling < nodes.len() {
            let step = seq![(nodes[sibling], index % 2 == 0)];
            let path = step + rest;
            assert(path[0] == step[0]);
            assert(path.drop_first() =~= rest);
        } else {
            assert(Seq::<(int, bool)>::empty() + rest =~= rest);
        }
    }
}

/// With an injective hash, equal roots of equally long sequences come only
/// from equal sequences.
pub proof fn lemma_root_injective<H: HashFunction>(s: Seq<int>, t: Seq<int>, h: H)
    requires
        hash_injective(h),
        s.len() == t.len(),
        s.len() > 0,
        root_of(s, h) == root_of(t, h),
    ensures
        s == t,
    decreases s.len(),
{
    if s.len() > 1 {
        let ns = next_level(s, h);
        let nt = next_level(t, h);
        lemma_root_injective(ns, nt, h);
        assert forall|j: int| 0 <= j < s.len() implies s[j] == t[j] by {
            let p = j / 2;
            assert(ns[p] == nt[p]);
        }
        assert(s =~= t);
    }
}

/// With an injective hash, changing any single leaf changes the root.
pub proof fn lemma_leaf_change_changes_root<H: HashFunction>(leaves: Seq<int>, index: int, value: int, h: H)
    requires
        hash_injective(h),
        0 <= index < leaves.len(),
        value != leaves[index],
    ensures
        root_of(leaves.update(index, value), h) != root_of(leaves, h),
{
    if root_of(leaves.update(index, value), h) == root_of(leaves, h) {
        lemma_root_injective(leaves.update(index, value), leaves, h);
        assert(leaves.update(index, value)[index] == value);
    }
}

/// Copies of the integers, with the same values.
fn copy_values(s: &Vec<Integer>) -> (r: Vec<Integer>)
    ensures
        r@.len() == s@.len(),
        values(r@) == values(s@),
{
    let mut r: Vec<Integer> = Vec::new();
    let mut i: usize = 0;
    while i < s.len()
        invariant
            i <= s@.len(),
            r@.len() == i,
            forall|k: int| 0 <= k < i ==> #[trigger] r@[k]@ == s@[k]@,
        decreases s.len() - i,
    {
        r.push(s[i].clone());
        i += 1;
    }
    assert(values(r@) =~= values(s@));
    r
}

/// The level above `nodes`.
fn hash_level<H: HashFunction>(nodes: &Vec<Integer>, h: &H) -> (r: Vec<Integer>)
    ensures
        r@.len() == (nodes@.len() + 1) / 2,
        values(r@) == next_level(values(nodes@), *h),
{
    let n = nodes.len();
    let half = n / 2 + n % 2;
    let mut r: Vec<Integer> = Vec::new();
    let mut k: usize = 0;
    while k < half
        invariant
            n == nodes@.len(),
            half == (n + 1) / 2,
            k <= half,
            r@.len() == k,
            forall|j: int| 0 <= j < k ==> #[trigger] r@[j]@ == next_level(values(nodes@), *h)[j],
        decreases half - k,
    {
        if 2 * k + 1 < n {
            r.push(h.hash(&nodes[2 * k], &nodes[2 * k + 1]));
        } else {
            r.push(nodes[2 * k].clone());
        }
        k += 1;
    }
    assert(values(r@) =~= next_level(values(nodes@), *h));
    r
}

/// A Merkle tree over a non-empty leaf sequence, with the root computed once.
pub struct MerkleTree<H: HashFunction> {
    root: Integer,
    leaves: Vec<Integer>,
    hash_function: H,
}

impl<H: HashFunction> MerkleTree<H> {
    /// The values of the leaves.
    pub closed spec fn leaves_view(&self) -> Seq<int> {
        values(self.leaves@)
    }

    /// The hash function the tree was built with.
    pub closed spec fn hasher(&self) -> H {
        self.hash_function
    }

    /// The stored root.
    pub closed spec fn root_view(&self) -> int {
        self.root@
    }

    /// The leaves are not empty and the stored root is their root.
    pub closed spec fn wf(&self) -> bool {
        &&& self.leaves@.len() > 0
        &&& self.root@ == root_of(values(self.leaves@), self.hash_function)
    }

    /// Builds the tree and computes its root.
    pub fn new(leaves: Vec<Integer>, hash_function: H) -> (r: Self)
        requires
            leaves@.len() > 0,
        ensures
            r.wf(),
            r.leaves_view() == values(leaves@),
            r.hasher() == hash_function,
            r.root_view() == root_of(values(leaves@), hash_function),
    {
        let root = Self::compute_root(&leaves, &hash_function);
        MerkleTree { root, leaves, hash_function }
    }

    /// The root of the leaves.
    fn compute_root(leaves: &Vec<Integer>, h: &H) -> (r: Integer)
        requires
            leaves@.len() > 0,
        ensures
            r@ == root_of(values(leaves@), *h),
    {
        let mut nodes = copy_values(leaves);
        while nodes.len() > 1
            invariant
                nodes@.len() > 0,
                root_of(values(nodes@), *h) == root_of(values(leaves@), *h),
            decreases nodes@.len(),
        {
            nodes = hash_level(&nodes, h);
        }
        nodes[0].clone()
    }

    /// The root.
    pub fn root(&self) -> (r: &Integer)
        requires
            self.wf(),
        ensures
            r@ == self.root_view(),
            r@ == root_of(self.leaves_view(), self.hasher()),
    {
        &self.root
    }

    /// The leaves, in order.
    pub fn leaves(&self) -> (r: &Vec<Integer>)
        ensures
            values(r@) == self.leaves_view(),
    {
        &self.leaves
    }

    /// The authentication path of leaf `index`: sibling values with the
    /// leaf-is-left-child flag, from the leaf level up to below the root.
    pub fn merkle_path(&self, index: usize) -> (r: Vec<(Integer, bool)>)
        requires
            index < self.leaves_view().len(),
        ensures
            path_values(r@) == path_of(self.leaves_view(), index as int, self.hasher()),
    {
        let mut path: Vec<(Integer, bool)> = Vec::new();
        let mut current_index = index;
        let mut nodes = copy_values(&self.leaves);
        while nodes.len() > 1
            invariant
                current_index < nodes@.len(),
                path_values(path@) + path_of(values(nodes@), current_index as int, self.hash_function)
                    == path_of(self.leaves_view(), index as int, self.hash_function),
            decreases nodes@.len(),
        {
            let ghost before = path@;
            let ghost level = values(nodes@);
            let upper = hash_level(&nodes, &self.hash_function);
            let sibling_index = if current_index % 2 == 0 {
                current_index + 1
            } else {
                current_index - 1
            };
            if sibling_index < nodes.len() {
                path.push((nodes[sibling_index].clone(), current_index % 2 == 0));
                assert(path_values(path@) =~= path_values(before) + seq![
                    (level[sibling_index as int], current_index % 2 == 0),
                ]);
            }
            proof {
                let rest = path_of(values(upper@), (current_index / 2) as int, self.hash_function);
                assert(path_values(path@) + rest =~= path_values(before) + path_of(level, current_index as int, self.hash_function));
            }
            current_index /= 2;
            nodes = upper;
        }
        assert(path_values(path@) =~= path_values(path@) + Seq::<(int, bool)>::empty());
        path
    }
}

/// Two trees built from the same leaf values with the same hash function have
/// the same root.
pub proof fn lemma_root_deterministic<H: HashFunction>(a: MerkleTree<H>, b: MerkleTree<H>)
    requires
        a.wf(),
        b.wf(),
        a.leaves_view() == b.leaves_view(),
        a.hasher() == b.hasher(),
    ensures
        a.root_view() == b.root_view(),
{
}

} // verus!
