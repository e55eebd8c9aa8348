use vstd::prelude::*;
use rayon::iter::{IntoParallelIterator, ParallelIterator};
use rayon::slice::ParallelSliceMut;
use crate::prefix::{common_prefix, lemma_common_prefix_basics, lemma_common_prefix_step, lemma_common_prefix_triangle};

verus! {

/// The keys are in ascending order.
pub open spec fn is_sorted(codes: Seq<u32>) -> bool {
    forall|i: int, j: int| 0 <= i <= j < codes.len() ==> codes[i] <= codes[j]
}

/// Length of the prefix shared by the keys at positions `i` and `j`.
pub open spec fn delta(codes: Seq<u32>, i: int, j: int) -> int {
    common_prefix(codes[i], codes[j])
}

/// At every inner position the key shares a prefix of a different length with
/// its right neighbour than with its left one, so the direction in which the
/// range of the internal node at that position grows is determined.
pub open spec fn directions_defined(codes: Seq<u32>) -> bool {
    forall|i: int| 0 < i < codes.len() - 1 ==> #[trigger] delta(codes, i, i + 1) != delta(codes, i, i - 1)
}

/// `(first, last)` is the range of keys covered by internal node `idx` of the
/// binary radix tree over `codes`: node 0 covers every key; any other node
/// has `idx` at one end and grows towards the neighbour with which `idx`
/// shares the longer prefix, as long as the keys share with `idx` a prefix
/// longer than the one `idx` shares with its other neighbour.
pub open spec fn node_range(codes: Seq<u32>, idx: int, first: int, last: int) -> bool {
    if idx == 0 {
        first == 0 && last == codes.len() - 1
    } else if delta(codes, idx, idx + 1) > delta(codes, idx, idx - 1) {
        &&& first == idx
        &&& idx < last < codes.len()
        &&& delta(codes, idx, last) > delta(codes, idx, idx - 1)
        &&& (last + 1 == codes.len() || delta(codes, idx, last + 1) <= delta(codes, idx, idx - 1))
    } else {
        &&& last == idx
        &&& 0 <= first < idx
        &&& delta(codes, idx, first) > delta(codes, idx, idx + 1)
        &&& (first == 0 || delta(codes, idx, first - 1) <= delta(codes, idx, idx + 1))
    }
}

/// `split` is where the range `first..=last` divides: the last position that still
/// shares with `first` a prefix longer than the one shared by the whole range,
/// or the middle of the range when all of its keys are equal.
pub open spec fn node_split(codes: Seq<u32>, first: int, last: int, split: int) -> bool {
    if codes[first] == codes[last] {
        split == (first + last) / 2
    } else {
        &&& first <= split < last
        &&& delta(codes, first, split) > delta(codes, first, last)
        &&& delta(codes, first, split + 1) <= delta(codes, first, last)
    }
}

/// The range of keys covered by internal node `idx` of the radix tree
/// (Karras 2012): found by binary search away from `idx`.
pub fn determine_range(codes: &Vec<u32>, idx: usize) -> (range: (usize, usize))
    requires
        idx + 1 < codes.len(),
        is_sorted(codes@),
        idx > 0 ==> delta(codes@, idx as int, idx + 1) != delta(codes@, idx as int, idx - 1),
    ensures
        node_range(codes@, idx as int, range.0 as int, range.1 as int),
{
    if idx == 0 {
        return (0, codes.len() - 1);
    }
    proof {
        lemma_common_prefix_basics(codes@[idx as int], codes@[idx as int]);
    }
    let next_prefix = (codes[idx] ^ codes[idx + 1]).leading_zeros();
    let prev_prefix = (codes[idx] ^ codes[idx - 1]).leading_zeros();
    if next_prefix > prev_prefix {
        // the range grows upwards from idx
        let min_prefix = prev_prefix;
        let mut high: usize = codes.len() - idx;
        let mut low: usize = 0;
        while high - low > 1
            invariant
                idx + 1 < codes.len(),
                low < high <= codes.len() - idx,
                min_prefix == delta(codes@, idx as int, idx - 1),
                delta(codes@, idx as int, idx + low) > min_prefix,
                high == codes.len() - idx || delta(codes@, idx as int, idx + high) <= min_prefix,
            decreases high - low,
        {
            let mid = low + (high - low) / 2;
            let mid_prefix = (codes[idx] ^ codes[idx + mid]).leading_zeros();
            if mid_prefix > min_prefix {
                low = mid;
            } else {
                high = mid;
            }
        }
        (idx, idx + low)
    } else {
        // the range grows downwards from idx
        let min_prefix = next_prefix;
        let mut high: usize = idx + 1;
        let mut low: usize = 0;
        while high - low > 1
            invariant
                idx + 1 < codes.len(),
                low < high <= idx + 1,
                min_prefix == delta(codes@, idx as int, idx + 1),
                delta(codes@, idx as int, idx - low) > min_prefix,
                high == idx + 1 || delta(codes@, idx as int, idx - high) <= min_prefix,
            decreases high - low,
        {
            let mid = low + (high - low) / 2;
            let mid_prefix = (codes[idx] ^ codes[idx - mid]).leading_zeros();
            if mid_prefix > min_prefix {
                low = mid;
            } else {
                high = mid;
            }
        }
        (idx - low, idx)
    }
}

/// Where the range `first..=last` of internal node divides into its two children:
/// binary search for the last key sharing a longer prefix with `first` than
/// `first` shares with `last`; the middle when the end keys are equal.
pub fn find_split(codes: &Vec<u32>, idx_range: (usize, usize)) -> (split: usize)
    requires
        idx_range.0 <= idx_range.1 < codes.len(),
        is_sorted(codes@),
    ensures
        node_split(codes@, idx_range.0 as int, idx_range.1 as int, split as int),
{
    let last = idx_range.1;
    let first = idx_range.0;
    if codes[first] == codes[last] {
        return first + (last - first) / 2;
    }
    proof {
        lemma_common_prefix_basics(codes@[first as int], codes@[first as int]);
        lemma_common_prefix_basics(codes@[first as int], codes@[last as int]);
    }
    let common = (codes[first] ^ codes[last]).leading_zeros();
    let mut high = last;
    let mut low = first;
    while high - low > 1
        invariant
            first <= low < high <= last < codes.len(),
            common == delta(codes@, first as int, last as int),
            delta(codes@, first as int, low as int) > common,
            delta(codes@, first as int, high as int) <= common,
        decreases high - low,
    {
        let mid = low + (high - low) / 2;
        let mid_prefix = (codes[first] ^ codes[mid]).leading_zeros();
        if mid_prefix > common {
            low = mid;
        } else {
            high = mid;
        }
    }
    low
}

/// `first..=last` is the key range of a subtree of the radix tree: the keys in it
/// share a longer prefix with one another than with either key just outside it.
pub open spec fn is_subtree_range(codes: Seq<u32>, first: int, last: int) -> bool {
    &&& 0 <= first < last < codes.len()
    &&& (first == 0 || delta(codes, first - 1, first) < delta(codes, first, last))
    &&& (last == codes.len() - 1 || delta(codes, last, last + 1) < delta(codes, first, last))
}

/// Entry `k` of `structure` holds `(first, last, split)` of internal node `k`.
pub open spec fn is_branch_structure(codes: Seq<u32>, structure: Seq<(usize, usize, usize)>) -> bool {
    &&& structure.len() + 1 == codes.len()
    &&& forall|k: int|
        0 <= k < structure.len() ==> {
            &&& node_range(codes, k, #[trigger] structure[k].0 as int, structure[k].1 as int)
            &&& node_split(codes, structure[k].0 as int, structure[k].1 as int, structure[k].2 as int)
        }
}

/// Sequence form of the prefix triangle: for positions `i <= j <= k` of sorted keys,
/// `delta(i, k)` is the smaller of `delta(i, j)` and `delta(j, k)`.
pub proof fn lemma_delta_triangle(codes: Seq<u32>, i: int, j: int, k: int)
    requires
        is_sorted(codes),
        0 <= i <= j <= k < codes.len(),
    ensures
        delta(codes, i, k) == if delta(codes, i, j) <= delta(codes, j, k) {
            delta(codes, i, j)
        } else {
            delta(codes, j, k)
        },
        delta(codes, i, k) <= delta(codes, i, j),
        delta(codes, i, k) <= delta(codes, j, k),
{
    lemma_common_prefix_triangle(codes[i], codes[j], codes[k]);
}

/// `delta` does not depend on the order of its two positions.
pub proof fn lemma_delta_symmetric(codes: Seq<u32>, i: int, j: int)
    requires
        0 <= i < codes.len(),
        0 <= j < codes.len(),
    ensures
        delta(codes, i, j) == delta(codes, j, i),
        0 <= delta(codes, i, j) <= 32,
        delta(codes, i, j) == 32 <==> codes[i] == codes[j],
{
    lemma_common_prefix_basics(codes[i], codes[j]);
}

/// The children of a subtree node (Karras 2012): the left child covers
/// `first..=split`, the right child `split + 1..=last`; a child that covers more
/// than one key is the internal node at `split` (left) or `split + 1` (right),
/// and its own range, as the branch structure records it, is exactly that part.
pub proof fn lemma_children(codes: Seq<u32>, structure: Seq<(usize, usize, usize)>, k: int)
    requires
        is_sorted(codes),
        directions_defined(codes),
        is_branch_structure(codes, structure),
        0 <= k < structure.len(),
        is_subtree_range(codes, structure[k].0 as int, structure[k].1 as int),
    ensures
        ({
            let (f, l, s) = structure[k];
            &&& f <= s < l
            &&& delta(codes, s as int, s + 1) == delta(codes, f as int, l as int)
            &&& s > f ==> {
                &&& structure[s as int].0 == f
                &&& structure[s as int].1 == s
                &&& is_subtree_range(codes, f as int, s as int)
            }
            &&& s + 1 < l ==> {
                &&& structure[s + 1].0 == s + 1
                &&& structure[s + 1].1 == l
                &&& is_subtree_range(codes, s + 1, l as int)
            }
        }),
{
    let n = codes.len();
    let (fu, lu, su) = structure[k];
    let f = fu as int;
    let l = lu as int;
    let s = su as int;
    assert(node_split(codes, f, l, s));
    if codes[f] == codes[l] {
        // a run of equal keys: it has exactly two members
        if l >= f + 2 {
            let i = f + 1;
            assert(codes[i] == codes[f] && codes[i + 1] == codes[f]);
            lemma_delta_symmetric(codes, i, i + 1);
            lemma_delta_symmetric(codes, i, i - 1);
            assert(0 < i < n - 1);
            assert(delta(codes, i, i + 1) != delta(codes, i, i - 1));
        }
        assert(l == f + 1);
        assert(s == f);
        lemma_delta_symmetric(codes, s, s + 1);
        lemma_delta_symmetric(codes, f, l);
    } else {
        let p = delta(codes, f, l);
        lemma_delta_symmetric(codes, f, l);
        assert(p < 32);
        lemma_delta_triangle(codes, f, s, s + 1);
        lemma_delta_triangle(codes, f, s, l);
        lemma_delta_triangle(codes, s, s + 1, l);
        assert(delta(codes, s, s + 1) == p);
        if s > f {
            lemma_delta_triangle(codes, f, s - 1, s);
            lemma_delta_symmetric(codes, s, s - 1);
            assert(delta(codes, s, s + 1) < delta(codes, s, s - 1));
            assert(node_range(codes, s, structure[s].0 as int, structure[s].1 as int));
            let fp = structure[s].0 as int;
            assert(structure[s].1 == su);
            if fp > f {
                lemma_delta_triangle(codes, f, fp - 1, s);
                lemma_delta_symmetric(codes, s, fp - 1);
                assert(false);
            }
            if fp < f {
                lemma_delta_triangle(codes, fp, f - 1, s);
                lemma_delta_triangle(codes, f - 1, f, s);
                lemma_delta_symmetric(codes, s, fp);
                assert(false);
            }
        }
        if s + 1 < l {
            lemma_delta_symmetric(codes, s, s + 1);
            assert(codes[s] < codes[s + 1]);
            lemma_common_prefix_step(codes[s], codes[s + 1], codes[l]);
            lemma_delta_triangle(codes, s + 1, s + 2, l);
            assert(node_range(codes, s + 1, structure[s + 1].0 as int, structure[s + 1].1 as int));
            let lp = structure[s + 1].1 as int;
            assert(structure[s + 1].0 == s + 1);
            if lp < l {
                lemma_delta_triangle(codes, s + 1, lp + 1, l);
                assert(false);
            }
            if lp > l {
                lemma_delta_triangle(codes, s + 1, l + 1, lp);
                lemma_delta_triangle(codes, s + 1, l, l + 1);
                assert(false);
            }
        }
    }
}

/// A binary radix tree whose leaves hold the items.
pub enum RadixTree<T> {
    Leaf(T),
    Branch(Box<RadixTree<T>>, Box<RadixTree<T>>),
}

impl<T> RadixTree<T> {
    /// The items at the leaves, from left to right.
    pub open spec fn leaves(self) -> Seq<T>
        decreases self,
    {
        match self {
            RadixTree::Leaf(item) => seq![item],
            RadixTree::Branch(left, right) => left.leaves() + right.leaves(),
        }
    }

    /// The tree is the binary radix tree over the sorted keys `codes` of its
    /// leaves: every branch splits its keys where they first differ, that is
    /// between the two neighbouring keys whose shared prefix is as short as the
    /// prefix shared by all keys under the branch.
    pub open spec fn is_radix_tree_of(self, codes: Seq<u32>) -> bool
        decreases self,
    {
        match self {
            RadixTree::Leaf(_) => codes.len() == 1,
            RadixTree::Branch(left, right) => {
                let m = left.leaves().len() as int;
                &&& 0 < m < codes.len()
                &&& left.is_radix_tree_of(codes.subrange(0, m))
                &&& right.is_radix_tree_of(codes.subrange(m, codes.len() as int))
                &&& common_prefix(codes[m - 1], codes[m]) == common_prefix(codes[0], codes[codes.len() - 1])
            }
        }
    }
}

/// The key range covered by node `idx` in the numbering of `assemble_tree`:
/// indices below `n` are leaves, index `n + k` is internal node `k`.
pub open spec fn covered_range(n: int, structure: Seq<(usize, usize, usize)>, idx: int) -> (int, int) {
    if idx < n {
        (idx, idx)
    } else {
        (structure[idx - n].0 as int, structure[idx - n].1 as int)
    }
}

/// The items held in `slots[first..=last]`.
pub open spec fn slot_items<T>(slots: Seq<Option<T>>, first: int, last: int) -> Seq<T> {
    Seq::new((last - first + 1) as nat, |j: int| slots[first + j].unwrap())
}

/// Joining the trees built over `first..=split` and `split + 1..=last` under a
/// branch gives the tree over `first..=last`.
proof fn lemma_join_subtrees<T>(
    codes: Seq<u32>,
    first: int,
    split: int,
    last: int,
    left: RadixTree<T>,
    right: RadixTree<T>,
    slots0: Seq<Option<T>>,
    slots1: Seq<Option<T>>,
)
    requires
        0 <= first <= split < last < codes.len(),
        slots0.len() == codes.len(),
        slots1.len() == codes.len(),
        left.leaves() == slot_items(slots0, first, split),
        right.leaves() == slot_items(slots1, split + 1, last),
        forall|j: int| split < j <= last ==> slots1[j] == slots0[j],
        left.is_radix_tree_of(codes.subrange(first, split + 1)),
        right.is_radix_tree_of(codes.subrange(split + 1, last + 1)),
        common_prefix(codes[split], codes[split + 1]) == common_prefix(codes[first], codes[last]),
    ensures
        RadixTree::Branch(Box::new(left), Box::new(right)).leaves() == slot_items(slots0, first, last),
        RadixTree::Branch(Box::new(left), Box::new(right)).is_radix_tree_of(codes.subrange(first, last + 1)),
{
    let node = RadixTree::Branch(Box::new(left), Box::new(right));
    assert(slot_items(slots1, split + 1, last) =~= slot_items(slots0, split + 1, last));
    assert(slot_items(slots0, first, last) =~= slot_items(slots0, first, split) + slot_items(
        slots0,
        split + 1,
        last,
    ));
    let sub = codes.subrange(first, last + 1);
    assert(sub.subrange(0, split - first + 1) =~= codes.subrange(first, split + 1));
    assert(sub.subrange(split - first + 1, sub.len() as int) =~= codes.subrange(split + 1, last + 1));
    assert(left.leaves().len() == split - first + 1);
}

/// Builds the subtree rooted at node `idx` (a leaf when `idx < leaves.len()`,
/// internal node `idx - leaves.len()` otherwise), taking its items out of `leaves`.
#[verifier::rlimit(30)]
pub fn assemble_tree<T>(
    idx: usize,
    leaves: &mut Vec<Option<T>>,
    branch_structure: &Vec<(usize, usize, usize)>,
    Ghost(codes): Ghost<Seq<u32>>,
) -> (node: RadixTree<T>)
    requires
        old(leaves).len() == codes.len(),
        codes.len() >= 2,
        2 * codes.len() <= usize::MAX,
        is_sorted(codes),
        directions_defined(codes),
        is_branch_structure(codes, branch_structure@),
        idx + 1 < 2 * codes.len(),
        idx >= codes.len() ==> is_subtree_range(
            codes,
            covered_range(codes.len() as int, branch_structure@, idx as int).0,
            covered_range(codes.len() as int, branch_structure@, idx as int).1,
        ),
        forall|j: int|
            covered_range(codes.len() as int, branch_structure@, idx as int).0 <= j
                <= covered_range(codes.len() as int, branch_structure@, idx as int).1
                ==> (#[trigger] old(leaves)@[j]) is Some,
    ensures
        ({
            let (f, l) = covered_range(codes.len() as int, branch_structure@, idx as int);
            &&& final(leaves)@.len() == old(leaves)@.len()
            &&& forall|j: int|
                0 <= j < final(leaves)@.len() ==> #[trigger] final(leaves)@[j] == if f <= j <= l {
                    None
                } else {
                    old(leaves)@[j]
                }
            &&& node.leaves() == slot_items(old(leaves)@, f, l)
            &&& node.is_radix_tree_of(codes.subrange(f, l + 1))
        }),
    decreases
            covered_range(codes.len() as int, branch_structure@, idx as int).1
                - covered_range(codes.len() as int, branch_structure@, idx as int).0,
{
    let n = leaves.len();
    if idx < n {
        // this is a leaf, just return itself
        let item = leaves[idx].take().unwrap();
        let node = RadixTree::Leaf(item);
        assert(node.leaves() =~= slot_items(old(leaves)@, idx as int, idx as int));
        assert(codes.subrange(idx as int, idx + 1).len() == 1);
        return node;
    }
    // an internal node: it needs its children before it returns itself

    let node_idx = idx - n;
    let (first, last, split) = branch_structure[node_idx];
    proof {
        lemma_children(codes, branch_structure@, node_idx as int);
    }
    let left_child_idx = if split == first {
        split
    } else {
        split + n
    };
    let right_child_idx = if split + 1 == last {
        split + 1
    } else {
        split + 1 + n
    };
    let ghost slots0 = leaves@;
    let left_child = assemble_tree(left_child_idx, leaves, branch_structure, Ghost(codes));
    let ghost slots1 = leaves@;
    assert forall|j: int| split < j <= last implies (#[trigger] slots1[j]) is Some && slots1[j] == slots0[j] by {
        assert(slots0[j] is Some);
    }
    let right_child = assemble_tree(right_child_idx, leaves, branch_structure, Ghost(codes));
    proof {
        lemma_join_subtrees(
            codes,
            first as int,
            split as int,
            last as int,
            left_child,
            right_child,
            slots0,
            slots1,
        );
        assert forall|j: int| 0 <= j < leaves@.len() implies #[trigger] leaves@[j] == if first <= j <= last {
            None
        } else {
            slots0[j]
        } by {
            assert(leaves@[j] == if split < j <= last { None } else { slots1[j] });
            assert(slots1[j] == if first <= j <= split { None } else { slots0[j] });
        }
    }
    RadixTree::Branch(Box::new(left_child), Box::new(right_child))
}

/// `(first, last, split)` of internal node `idx`: its key range and where it divides.
pub fn internal_node(codes: &Vec<u32>, idx: usize) -> (node: (usize, usize, usize))
    requires
        idx + 1 < codes.len(),
        is_sorted(codes@),
        idx > 0 ==> delta(codes@, idx as int, idx + 1) != delta(codes@, idx as int, idx - 1),
    ensures
        node_range(codes@, idx as int, node.0 as int, node.1 as int),
        node_split(codes@, node.0 as int, node.1 as int, node.2 as int),
{
    let (first, last) = determine_range(codes, idx);
    let split = find_split(codes, (first, last));
    (first, last, split)
}

/// Calls `rayon`'s `into_par_iter().map(..).collect()` on `0..codes.len() - 1`,
/// the map computing `internal_node` for each index. The contract claims that
/// the collected vector holds, in index order, one result for every index, and
/// that each result is what `internal_node` ensures for that index (its
/// preconditions hold for every index under this function's `requires`).
#[verifier::external_body]
fn par_branch_structure(codes: &Vec<u32>) -> (structure: Vec<(usize, usize, usize)>)
    requires
        codes.len() >= 2,
        is_sorted(codes@),
        directions_defined(codes@),
    ensures
        is_branch_structure(codes@, structure@),
{
    (0..codes.len() - 1).into_par_iter().map(|idx| internal_node(codes, idx)).collect()
}

/// The keys can be built into a radix tree: there are at least two of them (and
/// few enough to number every node of the tree in a `usize`), they are sorted,
/// and the direction of every inner node is defined.
pub open spec fn is_tree_key_sequence(codes: Seq<u32>) -> bool {
    &&& 2 <= codes.len()
    &&& 2 * codes.len() <= usize::MAX
    &&& is_sorted(codes)
    &&& directions_defined(codes)
}

/// Whether `build_radix_tree` accepts the keys `codes`.
pub fn keys_form_radix_tree(codes: &Vec<u32>) -> (ok: bool)
    ensures
        ok == is_tree_key_sequence(codes@),
{
    let n = codes.len();
    if n < 2 || n > usize::MAX / 2 {
        return false;
    }
    let mut i: usize = 1;
    while i < n
        invariant
            2 <= n == codes.len(),
            1 <= i <= n,
            forall|j: int| 0 < j < i ==> codes@[j - 1] <= #[trigger] codes@[j],
        decreases n - i,
    {
        if codes[i - 1] > codes[i] {
            return false;
        }
        i = i + 1;
    }
    assert(is_sorted(codes@)) by {
        assert forall|a: int, b: int| 0 <= a <= b < codes@.len() implies codes@[a] <= codes@[b] by {
            lemma_sorted_by_neighbours(codes@, a, b);
        }
    }
    let mut i: usize = 1;
    while i + 1 < n
        invariant
            2 <= n == codes.len(),
            1 <= i < n,
            forall|j: int| 0 < j < i ==> #[trigger] delta(codes@, j, j + 1) != delta(codes@, j, j - 1),
        decreases n - i,
    {
        let next_prefix = (codes[i] ^ codes[i + 1]).leading_zeros();
        let prev_prefix = (codes[i] ^ codes[i - 1]).leading_zeros();
        if next_prefix == prev_prefix {
            assert(delta(codes@, i as int, i + 1) == delta(codes@, i as int, i - 1));
            return false;
        }
        i = i + 1;
    }
    true
}

/// Keys whose neighbours are in order are in order.
proof fn lemma_sorted_by_neighbours(codes: Seq<u32>, a: int, b: int)
    requires
        forall|j: int| 0 < j < codes.len() ==> codes[j - 1] <= #[trigger] codes[j],
        0 <= a <= b < codes.len(),
    ensures
        codes[a] <= codes[b],
    decreases b - a,
{
    if a < b {
        lemma_sorted_by_neighbours(codes, a, b - 1);
    }
}

/// The binary radix tree over the sorted keys `codes`, whose leaves hold the
/// items of `leaves` in the same order (Karras 2012: every internal node's range
/// and split are found independently, in parallel, then the nodes are linked).
pub fn build_radix_tree<T>(leaves: Vec<Option<T>>, codes: &Vec<u32>) -> (tree: RadixTree<T>)
    requires
        leaves.len() == codes.len(),
        is_tree_key_sequence(codes@),
        forall|j: int| 0 <= j < leaves.len() ==> (#[trigger] leaves@[j]) is Some,
    ensures
        tree.leaves() == slot_items(leaves@, 0, leaves.len() - 1),
        tree.is_radix_tree_of(codes@),
{
    let branch_structure = par_branch_structure(codes);
    let mut leaves = leaves;
    let n = leaves.len();
    let ghost codes_seq = codes@;
    assert(node_range(codes_seq, 0, branch_structure@[0].0 as int, branch_structure@[0].1 as int));
    let tree = assemble_tree(n, &mut leaves, &branch_structure, Ghost(codes_seq));
    assert(codes_seq.subrange(0, n as int) =~= codes_seq);
    tree
}

/// `to` holds the entries of `from` rearranged: `to[k] == from[perm[k]]` for a
/// one-to-one `perm`, which keeps entries with equal keys in their former order.
pub open spec fn is_stable_rearrangement<T>(from: Seq<(T, u32)>, to: Seq<(T, u32)>, perm: Seq<int>) -> bool {
    &&& from.len() == to.len()
    &&& perm.len() == to.len()
    &&& forall|k: int| 0 <= k < to.len() ==> 0 <= #[trigger] perm[k] < from.len() && to[k] == from[perm[k]]
    &&& forall|k1: int, k2: int|
        0 <= k1 < k2 < to.len() ==> #[trigger] perm[k1] != #[trigger] perm[k2]
            && (to[k1].1 == to[k2].1 ==> perm[k1] < perm[k2])
}

/// The entries of `entries` in the order given by the positions in `perm`.
pub open spec fn permuted<T>(entries: Seq<(T, u32)>, perm: Seq<int>) -> Seq<(T, u32)> {
    Seq::new(perm.len(), |k: int| entries[perm[k]])
}

/// The entries are in ascending order of their keys.
pub open spec fn is_sorted_by_key<T>(entries: Seq<(T, u32)>) -> bool {
    forall|i: int, j: int| 0 <= i <= j < entries.len() ==> entries[i].1 <= entries[j].1
}

/// Calls `rayon`'s `par_sort_by_key` with the key of each entry. The contract
/// claims what its documentation states: the entries end up in ascending key
/// order, rearranged, and the sort is stable.
#[verifier::external_body]
fn par_sort_by_code<T: Send>(entries: &mut Vec<(T, u32)>)
    ensures
        is_sorted_by_key(final(entries)@),
        exists|perm: Seq<int>| is_stable_rearrangement(old(entries)@, final(entries)@, perm),
{
    entries.par_sort_by_key(|entry| entry.1);
}

/// Calls `rayon`'s `into_par_iter().map(..).unzip()` on the entries, the map
/// wrapping each item in `Some`. The contract claims that both vectors keep the
/// entries' order: slot `k` holds the item of entry `k`, key `k` its key.
#[verifier::external_body]
fn par_unzip_entries<T: Send>(entries: Vec<(T, u32)>) -> (split: (Vec<Option<T>>, Vec<u32>))
    ensures
        split.0@.len() == entries@.len(),
        split.1@.len() == entries@.len(),
        forall|k: int| 0 <= k < entries@.len() ==> #[trigger] split.0@[k] == Some(entries@[k].0),
        forall|k: int| 0 <= k < entries@.len() ==> #[trigger] split.1@[k] == entries@[k].1,
{
    entries.into_par_iter().map(|(item, code)| (Some(item), code)).unzip()
}

/// Sorts the items by their Morton keys and lays them out as the leaf slots of
/// the tree, together with the sorted keys.
pub fn generate_leaves<T: Send>(entries: Vec<(T, u32)>) -> (result: (Vec<Option<T>>, Vec<u32>))
    ensures
        result.0@.len() == entries@.len(),
        result.1@.len() == entries@.len(),
        is_sorted(result.1@),
        exists|perm: Seq<int>|
            {
                &&& #[trigger] is_stable_rearrangement(entries@, permuted(entries@, perm), perm)
                &&& forall|k: int|
                    0 <= k < entries@.len() ==> result.0@[k] == Some(entries@[perm[k]].0) && result.1@[k]
                        == entries@[perm[k]].1
            },
{
    let mut entries = entries;
    let ghost unsorted = entries@;
    par_sort_by_code(&mut entries);
    let ghost sorted = entries@;
    let result = par_unzip_entries(entries);
    proof {
        let perm = choose|perm: Seq<int>| is_stable_rearrangement(unsorted, sorted, perm);
        assert(permuted(unsorted, perm) =~= sorted);
        assert forall|i: int, j: int| 0 <= i <= j < result.1@.len() implies result.1@[i] <= result.1@[j] by {
            assert(result.1@[i] == sorted[i].1);
            assert(result.1@[j] == sorted[j].1);
        }
        assert(forall|k: int|
            0 <= k < unsorted.len() ==> result.0@[k] == Some(unsorted[perm[k]].0) && result.1@[k]
                == unsorted[perm[k]].1);
    }
    result
}

/// Keys in strictly ascending order (no key repeated) always have defined
/// directions, so every such sequence of at least two keys builds into a tree.
pub proof fn lemma_distinct_keys_define_directions(codes: Seq<u32>)
    requires
        forall|i: int, j: int| 0 <= i < j < codes.len() ==> codes[i] < codes[j],
    ensures
        is_sorted(codes),
        directions_defined(codes),
{
    assert forall|i: int| 0 < i < codes.len() - 1 implies #[trigger] delta(codes, i, i + 1) != delta(
        codes,
        i,
        i - 1,
    ) by {
        lemma_common_prefix_basics(codes[i], codes[i - 1]);
        lemma_common_prefix_triangle(codes[i - 1], codes[i], codes[i + 1]);
        if delta(codes, i, i + 1) == delta(codes, i, i - 1) {
            lemma_common_prefix_step(codes[i - 1], codes[i], codes[i + 1]);
        }
    }
}

/// A rearrangement leaves no entry behind: every position `j` of `from` is the
/// source of exactly one position of `to`.
pub proof fn lemma_rearrangement_is_onto<T>(from: Seq<(T, u32)>, to: Seq<(T, u32)>, perm: Seq<int>, j: int)
    requires
        is_stable_rearrangement(from, to, perm),
        0 <= j < from.len(),
    ensures
        exists|k: int| 0 <= k < to.len() && perm[k] == j && to[k] == from[j],
        forall|k1: int, k2: int|
            0 <= k1 < to.len() && 0 <= k2 < to.len() && perm[k1] == j && perm[k2] == j ==> k1 == k2,
{
    let n = to.len() as int;
    let range = vstd::set_lib::set_int_range(0, n);
    let f = |k: int| perm[k];
    let image = range.map(f);
    vstd::set_lib::lemma_int_range(0, n);
    assert(vstd::relations::injective_on(f, range)) by {
        assert forall|a: int, b: int| range.contains(a) && range.contains(b) && #[trigger] f(a) == #[trigger] f(b)
            implies a == b by {
            if a < b {
                assert(perm[a] != perm[b]);
            } else if b < a {
                assert(perm[b] != perm[a]);
            }
        }
    }
    vstd::set_lib::lemma_map_size(range, image, f);
    assert(image.subset_of(range)) by {
        assert forall|x: int| image.contains(x) implies range.contains(x) by {
            let k = choose|k: int| range.contains(k) && f(k) == x;
            assert(0 <= perm[k] < from.len());
        }
    }
    vstd::set_lib::lemma_subset_equality(image, range);
    assert(range.contains(j));
    assert(image.contains(j));
    let k = choose|k: int| range.contains(k) && f(k) == j;
    assert(0 <= k < to.len() && perm[k] == j && to[k] == from[j]);
    assert forall|k1: int, k2: int|
        0 <= k1 < to.len() && 0 <= k2 < to.len() && perm[k1] == j && perm[k2] == j implies k1 == k2 by {
        if k1 < k2 {
            assert(perm[k1] != perm[k2]);
        } else if k2 < k1 {
            assert(perm[k2] != perm[k1]);
        }
    }
}

/// Built from the slots and keys that `generate_leaves` laid out for `entries`,
/// the tree holds the item of every entry at exactly one leaf position, where
/// the key sequence holds that entry's key; the leaves run in ascending key order.
pub proof fn lemma_every_entry_reaches_one_leaf<T>(
    entries: Seq<(T, u32)>,
    perm: Seq<int>,
    slots: Seq<Option<T>>,
    codes: Seq<u32>,
    tree: RadixTree<T>,
    j: int,
)
    requires
        is_stable_rearrangement(entries, permuted(entries, perm), perm),
        slots.len() == entries.len(),
        codes.len() == entries.len(),
        is_sorted(codes),
        forall|k: int|
            0 <= k < entries.len() ==> #[trigger] slots[k] == Some(entries[perm[k]].0) && codes[k]
                == entries[perm[k]].1,
        tree.leaves() == slot_items(slots, 0, entries.len() - 1),
        0 <= j < entries.len(),
    ensures
        tree.leaves().len() == entries.len(),
        exists|k: int|
            0 <= k < entries.len() && perm[k] == j && tree.leaves()[k] == entries[j].0 && codes[k] == entries[j].1,
        forall|k1: int, k2: int|
            0 <= k1 < entries.len() && 0 <= k2 < entries.len() && perm[k1] == j && perm[k2] == j ==> k1 == k2,
        forall|k1: int, k2: int| 0 <= k1 <= k2 < entries.len() ==> codes[k1] <= codes[k2],
{
    lemma_rearrangement_is_onto(entries, permuted(entries, perm), perm, j);
    let to = permuted(entries, perm);
    let k = choose|k: int| 0 <= k < to.len() && perm[k] == j && to[k] == entries[j];
    assert(0 <= k < entries.len());
    assert(slots[k] == Some(entries[perm[k]].0) && codes[k] == entries[perm[k]].1);
    assert(tree.leaves()[k] == slots[k].unwrap());
    assert(tree.leaves()[k] == entries[j].0);
}

} // verus!
