use rusty_nbuddies::morton::{expand_bits, morton_from_cell};
use rusty_nbuddies::radix::{
    build_radix_tree, determine_range, find_split, generate_leaves, internal_node, keys_form_radix_tree,
    RadixTree,
};

#[test]
fn text_tree_building() {
    let codes = vec![0b00001, 0b00010, 0b00100, 0b00101, 0b10011, 0b11000, 0b11001, 0b11110];

    let branch_structure: Vec<(usize, usize, usize, usize)> = (0..codes.len() - 1)
    .into_iter().map(|idx| {
        let (first, last) = determine_range(&codes, idx);
        let split = find_split(&codes, (first, last));
        (idx, first, last, split)
    }).collect();

    let branch_stucture_from_paper = [
        (0,0,7,3),
        (1,0,1,0),
        (2,2,3,2),
        (3,0,3,1),
        (4,4,7,4),
        (5,5,7,6),
        (6,5,6,5)
    ];

    let mut error = 0;
    for i in 0..7 {
        error += (branch_structure[i].0 as isize - branch_stucture_from_paper[i].0 as isize).abs();
        error += (branch_structure[i].1 as isize - branch_stucture_from_paper[i].1 as isize).abs();
        error += (branch_structure[i].2 as isize - branch_stucture_from_paper[i].2 as isize).abs();
        error += (branch_structure[i].3 as isize - branch_stucture_from_paper[i].3 as isize).abs();
    }

    if error != 0 {
        panic!("Something wrong in tree building, likely range finding or split finding")
    }
}

fn leaves_of<T: Clone>(tree: &RadixTree<T>, out: &mut Vec<T>) {
    match tree {
        RadixTree::Leaf(item) => out.push(item.clone()),
        RadixTree::Branch(left, right) => {
            leaves_of(left, out);
            leaves_of(right, out);
        }
    }
}

fn shape(tree: &RadixTree<usize>) -> String {
    match tree {
        RadixTree::Leaf(item) => format!("{}", item),
        RadixTree::Branch(left, right) => format!("({} {})", shape(left), shape(right)),
    }
}

#[test]
fn expand_bits_spreads_to_every_third_bit() {
    assert_eq!(expand_bits(0), 0);
    assert_eq!(expand_bits(1), 1);
    assert_eq!(expand_bits(2), 8);
    assert_eq!(expand_bits(5), 65);
    assert_eq!(expand_bits(0b11_1111_1111), 0x0924_9249);
    assert_eq!(expand_bits(0b10_0000_0000), 1 << 27);
}

#[test]
fn morton_from_cell_interleaves_coordinates() {
    assert_eq!(morton_from_cell(1, 0, 0), 4);
    assert_eq!(morton_from_cell(0, 1, 0), 2);
    assert_eq!(morton_from_cell(0, 0, 1), 1);
    assert_eq!(morton_from_cell(3, 0, 1), 0b100_101);
    assert_eq!(morton_from_cell(1023, 1023, 1023), 0x3FFF_FFFF);
}

#[test]
fn distinct_cells_get_distinct_codes() {
    let mut seen = std::collections::HashSet::new();
    for x in [0u32, 1, 2, 511, 1023] {
        for y in [0u32, 7, 512, 1023] {
            for z in [0u32, 3, 100, 1023] {
                assert!(seen.insert(morton_from_cell(x, y, z)));
            }
        }
    }
}

#[test]
fn determine_range_of_root_covers_all_keys() {
    let codes: Vec<u32> = vec![3, 9, 17, 40];
    assert_eq!(determine_range(&codes, 0), (0, 3));
}

#[test]
fn find_split_of_equal_keys_is_the_middle() {
    let codes: Vec<u32> = vec![7, 7, 9];
    assert_eq!(find_split(&codes, (0, 1)), 0);
    let codes: Vec<u32> = vec![4, 4, 4, 4, 4];
    assert_eq!(find_split(&codes, (1, 4)), 2);
}

#[test]
fn find_split_at_highest_differing_bit() {
    // 0b0001, 0b0010 | 0b1000, 0b1001: the top bit splits after position 1
    let codes: Vec<u32> = vec![1, 2, 8, 9];
    assert_eq!(find_split(&codes, (0, 3)), 1);
    assert_eq!(internal_node(&codes, 0), (0, 3, 1));
}

#[test]
fn keys_form_radix_tree_checks_every_condition() {
    assert!(keys_form_radix_tree(&vec![1, 2]));
    assert!(keys_form_radix_tree(&vec![1, 1, 2, 2]));
    assert!(keys_form_radix_tree(&vec![1, 2, 4, 5, 19, 24, 25, 30]));
    assert!(!keys_form_radix_tree(&vec![5]));
    assert!(!keys_form_radix_tree(&vec![]));
    assert!(!keys_form_radix_tree(&vec![2, 1]));
    assert!(!keys_form_radix_tree(&vec![3, 3, 3]));
}

#[test]
fn generate_leaves_sorts_stably_by_key() {
    let entries = vec![("a", 5u32), ("b", 1), ("c", 5), ("d", 3)];
    let (leaves, codes) = generate_leaves(entries);
    assert_eq!(leaves, vec![Some("b"), Some("d"), Some("a"), Some("c")]);
    assert_eq!(codes, vec![1, 3, 5, 5]);
}

#[test]
fn build_radix_tree_of_paper_keys() {
    let codes: Vec<u32> = vec![0b00001, 0b00010, 0b00100, 0b00101, 0b10011, 0b11000, 0b11001, 0b11110];
    let leaves: Vec<Option<usize>> = (0..8).map(Some).collect();
    let tree = build_radix_tree(leaves, &codes);
    let mut items = Vec::new();
    leaves_of(&tree, &mut items);
    assert_eq!(items, (0..8).collect::<Vec<usize>>());
    assert_eq!(shape(&tree), "(((0 1) (2 3)) (4 ((5 6) 7)))");
}

#[test]
fn build_radix_tree_of_two_equal_keys() {
    let codes: Vec<u32> = vec![6, 6];
    let tree = build_radix_tree(vec![Some(10usize), Some(11)], &codes);
    assert_eq!(shape(&tree), "(10 11)");
}

#[test]
fn tree_from_unsorted_entries_holds_each_item_once() {
    let entries: Vec<(usize, u32)> = vec![(0, 900), (1, 12), (2, 77), (3, 5), (4, 300), (5, 13)];
    let (leaves, codes) = generate_leaves(entries);
    assert_eq!(codes, vec![5, 12, 13, 77, 300, 900]);
    assert!(keys_form_radix_tree(&codes));
    let tree = build_radix_tree(leaves, &codes);
    let mut items = Vec::new();
    leaves_of(&tree, &mut items);
    assert_eq!(items, vec![3, 1, 5, 2, 4, 0]);
}
