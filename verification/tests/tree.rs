use avl_interval_tree::coordinate::{bits_from_key, key_from_bits};
use avl_interval_tree::outline::rows_to_string;
use avl_interval_tree::{Branch, Interval, IntervalTree, Row};

fn key(x: f64) -> i64 {
    key_from_bits(x.to_bits())
}

fn number(key: i64) -> f64 {
    f64::from_bits(bits_from_key(key).unwrap())
}

fn payloads(found: &[Interval]) -> Vec<String> {
    found.iter().map(|interval| interval.data()).collect()
}

fn triples(found: &[Interval]) -> Vec<(i64, i64, String)> {
    found
        .iter()
        .map(|interval| (interval.start(), interval.end(), interval.data()))
        .collect()
}

/// The intervals of `stored` that cover `point`, found by looking at each,
/// in the order in which the tree keeps them: by start, and of equal starts
/// the later one first.
fn scan(stored: &[(i64, i64, String)], point: i64) -> Vec<(i64, i64, String)> {
    let mut sorted: Vec<(i64, i64, String)> = Vec::new();
    for item in stored {
        let at = sorted.iter().position(|other| other.0 >= item.0).unwrap_or(sorted.len());
        sorted.insert(at, item.clone());
    }
    sorted.into_iter().filter(|item| item.0 <= point && point <= item.1).collect()
}

fn in_order(stored: &[(i64, i64, String)]) -> Vec<(i64, i64, String)> {
    let mut sorted: Vec<(i64, i64, String)> = Vec::new();
    for item in stored {
        let at = sorted.iter().position(|other| other.0 >= item.0).unwrap_or(sorted.len());
        sorted.insert(at, item.clone());
    }
    sorted
}

fn ceil_log2(n: usize) -> i32 {
    let mut k = 0;
    while (1usize << k) < n {
        k += 1;
    }
    k
}

struct Random(u64);

impl Random {
    fn next(&mut self) -> u64 {
        self.0 = self.0.wrapping_mul(6364136223846793005).wrapping_add(1442695040888963407);
        self.0 >> 33
    }

    fn below(&mut self, bound: u64) -> i64 {
        (self.next() % bound) as i64
    }
}

fn sample() -> IntervalTree {
    let mut tree = IntervalTree::new();
    let intervals = [
        (1.5, 3.2, "A"),
        (2.1, 5.7, "B"),
        (4.3, 7.8, "C"),
        (6.5, 8.9, "D"),
        (8.1, 10.4, "E"),
        (9.3, 12.6, "F"),
        (0.5, 2.3, "G"),
    ];
    for (start, end, data) in intervals {
        tree.insert(key(start), key(end), data.to_string());
    }
    tree
}

/// The rows of the subtree whose root stands on row `at`.
fn subtree(rows: &[Row], at: usize) -> &[Row] {
    let mut end = at + 1;
    while end < rows.len() && rows[end].level > rows[at].level {
        end += 1;
    }
    &rows[at..end]
}

fn height_of(rows: &[Row], at: usize) -> usize {
    subtree(rows, at)
        .iter()
        .filter(|row| row.node.is_some())
        .map(|row| row.level - rows[at].level + 1)
        .max()
        .unwrap_or(0)
}

/// The row of the child of the node on row `at` on the side `branch`.
fn child(rows: &[Row], at: usize, branch: Branch) -> Option<usize> {
    let below = subtree(rows, at);
    (1..below.len())
        .find(|&i| below[i].level == rows[at].level + 1 && below[i].branch == branch)
        .map(|i| at + i)
}

#[test]
fn new_tree_is_empty() {
    let tree = IntervalTree::new();
    assert!(tree.is_empty());
    assert_eq!(tree.size(), 0);
    assert_eq!(tree.len(), 0);
    assert_eq!(tree.height(), 0);
    assert!(tree.get_all_intervals().is_empty());
    assert!(tree.find_overlapping(0).is_empty());
    assert!(tree.outline().is_empty());
}

#[test]
fn tree_is_not_empty_after_an_insertion() {
    let mut tree = IntervalTree::new();
    tree.insert(4, 9, String::from("only"));
    assert!(!tree.is_empty());
    assert_eq!(tree.size(), 1);
    assert_eq!(tree.len(), 1);
    assert_eq!(tree.height(), 1);
    tree.insert(4, 9, String::from("again"));
    assert!(!tree.is_empty());
    assert_eq!(tree.size(), 2);
}

#[test]
fn size_counts_every_insertion() {
    let mut tree = IntervalTree::new();
    for i in 0..100 {
        assert_eq!(tree.size(), i);
        assert_eq!(tree.len(), i as usize);
        tree.insert((i as i64 * 37) % 11, i as i64, String::new());
    }
    assert_eq!(tree.size(), 100);
    assert_eq!(tree.get_all_intervals().len(), 100);
}

#[test]
fn sample_point_below_all_but_one() {
    let tree = sample();
    assert_eq!(payloads(&tree.find_overlapping(key(1.0))), ["G"]);
}

#[test]
fn sample_point_in_one_interval() {
    let tree = sample();
    assert_eq!(payloads(&tree.find_overlapping(key(3.5))), ["B"]);
}

#[test]
fn sample_point_above_everything() {
    let tree = sample();
    assert!(tree.find_overlapping(key(15.0)).is_empty());
}

#[test]
fn sample_points_in_two_intervals() {
    let tree = sample();
    assert_eq!(payloads(&tree.find_overlapping(key(5.2))), ["B", "C"]);
    assert_eq!(payloads(&tree.find_overlapping(key(7.1))), ["C", "D"]);
    assert_eq!(payloads(&tree.find_overlapping(key(9.8))), ["E", "F"]);
    assert_eq!(payloads(&tree.find_overlapping(key(11.5))), ["F"]);
}

#[test]
fn sample_agrees_with_a_scan() {
    let tree = sample();
    let stored = triples(&tree.get_all_intervals());
    for point in [1.0, 3.5, 5.2, 7.1, 9.8, 11.5, 15.0, 0.5, 12.6, 2.1, 2.3, 0.4999, 12.6001] {
        assert_eq!(triples(&tree.find_overlapping(key(point))), scan(&stored, key(point)));
    }
}

#[test]
fn sample_in_order() {
    let tree = sample();
    let all = tree.get_all_intervals();
    assert_eq!(payloads(&all), ["G", "A", "B", "C", "D", "E", "F"]);
    let starts: Vec<f64> = all.iter().map(|interval| number(interval.start())).collect();
    assert_eq!(starts, [0.5, 1.5, 2.1, 4.3, 6.5, 8.1, 9.3]);
    let ends: Vec<f64> = all.iter().map(|interval| number(interval.end())).collect();
    assert_eq!(ends, [2.3, 3.2, 5.7, 7.8, 8.9, 10.4, 12.6]);
    assert_eq!(tree.size(), 7);
    assert!(!tree.is_empty());
}

#[test]
fn sample_structure() {
    let tree = sample();
    assert_eq!(tree.height(), 4);
    let rows = tree.outline();
    let shown: Vec<(usize, Branch, Option<String>, Option<f64>)> = rows
        .iter()
        .map(|row| {
            (
                row.level,
                row.branch,
                row.node.as_ref().map(|node| node.0.data()),
                row.node.as_ref().map(|node| number(node.1)),
            )
        })
        .collect();
    let node = |level, branch, data: &str, max_end| {
        (level, branch, Some(data.to_string()), Some(max_end))
    };
    assert_eq!(
        shown,
        [
            node(0, Branch::Root, "D", 12.6),
            node(1, Branch::Left, "B", 7.8),
            node(2, Branch::Left, "A", 3.2),
            node(3, Branch::Left, "G", 2.3),
            (3, Branch::Right, None, None),
            node(2, Branch::Right, "C", 7.8),
            node(1, Branch::Right, "E", 12.6),
            (2, Branch::Left, None, None),
            node(2, Branch::Right, "F", 12.6),
        ]
    );
}

#[test]
fn boundary_points_are_covered() {
    let mut tree = IntervalTree::new();
    tree.insert(10, 20, String::from("x"));
    assert_eq!(payloads(&tree.find_overlapping(10)), ["x"]);
    assert_eq!(payloads(&tree.find_overlapping(20)), ["x"]);
    assert_eq!(payloads(&tree.find_overlapping(15)), ["x"]);
    assert!(tree.find_overlapping(9).is_empty());
    assert!(tree.find_overlapping(21).is_empty());
}

#[test]
fn single_point_interval() {
    let mut tree = IntervalTree::new();
    tree.insert(5, 5, String::from("dot"));
    assert_eq!(payloads(&tree.find_overlapping(5)), ["dot"]);
    assert!(tree.find_overlapping(4).is_empty());
    assert!(tree.find_overlapping(6).is_empty());
}

#[test]
fn interval_with_start_above_end_is_stored_and_never_found() {
    let mut tree = IntervalTree::new();
    tree.insert(1, 10, String::from("wide"));
    tree.insert(8, 3, String::from("inverted"));
    assert_eq!(tree.size(), 2);
    assert_eq!(payloads(&tree.get_all_intervals()), ["wide", "inverted"]);
    for point in 0..12 {
        let found = payloads(&tree.find_overlapping(point));
        assert!(!found.contains(&String::from("inverted")));
        assert_eq!(found.len(), if 1 <= point && point <= 10 { 1 } else { 0 });
    }
}

#[test]
fn extreme_coordinates() {
    let mut tree = IntervalTree::new();
    tree.insert(i64::MIN, i64::MAX, String::from("all"));
    tree.insert(i64::MIN, i64::MIN, String::from("least"));
    tree.insert(i64::MAX, i64::MAX, String::from("most"));
    assert_eq!(payloads(&tree.find_overlapping(i64::MIN)), ["least", "all"]);
    assert_eq!(payloads(&tree.find_overlapping(0)), ["all"]);
    assert_eq!(payloads(&tree.find_overlapping(i64::MAX)), ["all", "most"]);
}

#[test]
fn equal_starts_keep_the_later_one_first() {
    let mut tree = IntervalTree::new();
    for name in ["first", "second", "third", "fourth", "fifth"] {
        tree.insert(7, 9, name.to_string());
    }
    assert_eq!(
        payloads(&tree.get_all_intervals()),
        ["fifth", "fourth", "third", "second", "first"]
    );
    assert_eq!(
        payloads(&tree.find_overlapping(8)),
        ["fifth", "fourth", "third", "second", "first"]
    );
    assert!(tree.height() <= 3);
}

#[test]
fn equal_starts_among_others() {
    let mut tree = IntervalTree::new();
    tree.insert(5, 6, String::from("a"));
    tree.insert(3, 4, String::from("b"));
    tree.insert(5, 9, String::from("c"));
    tree.insert(8, 9, String::from("d"));
    tree.insert(5, 5, String::from("e"));
    tree.insert(3, 9, String::from("f"));
    assert_eq!(payloads(&tree.get_all_intervals()), ["f", "b", "e", "c", "a", "d"]);
    assert_eq!(payloads(&tree.find_overlapping(5)), ["f", "e", "c", "a"]);
}

#[test]
fn found_intervals_are_sorted_by_start() {
    let mut tree = IntervalTree::new();
    for (start, name) in [(50, "m"), (20, "e"), (80, "t"), (10, "b"), (30, "g"), (70, "r"), (90, "z")]
    {
        tree.insert(start, 100, name.to_string());
    }
    assert_eq!(payloads(&tree.find_overlapping(100)), ["b", "e", "g", "m", "r", "t", "z"]);
    assert_eq!(payloads(&tree.find_overlapping(60)), ["b", "e", "g", "m"]);
}

#[test]
fn search_leaves_the_tree_as_it_is() {
    let tree = sample();
    let before = tree.print_tree();
    let first = triples(&tree.find_overlapping(key(5.2)));
    let second = triples(&tree.find_overlapping(key(5.2)));
    assert_eq!(first, second);
    assert_eq!(tree.print_tree(), before);
    assert_eq!(tree.size(), 7);
}

#[test]
fn returned_intervals_are_copies() {
    let mut tree = IntervalTree::new();
    tree.insert(1, 2, String::from("kept"));
    let mut found = tree.find_overlapping(1);
    found.clear();
    let mut all = tree.get_all_intervals();
    all.pop();
    assert_eq!(payloads(&tree.find_overlapping(1)), ["kept"]);
    assert_eq!(payloads(&tree.get_all_intervals()), ["kept"]);
}

#[test]
fn long_interval_under_a_rotated_node_is_found() {
    // The long interval ends up below a node that a rotation has lifted
    // over it; the largest end must travel up with it.
    let mut tree = IntervalTree::new();
    tree.insert(100, 101, String::from("top"));
    tree.insert(0, 1000, String::from("long"));
    tree.insert(1, 2, String::from("p"));
    tree.insert(2, 3, String::from("q"));
    tree.insert(200, 201, String::from("r"));
    tree.insert(3, 4, String::from("s"));
    tree.insert(4, 5, String::from("t"));
    for point in [500, 50, 1000, 6] {
        assert_eq!(payloads(&tree.find_overlapping(point)), ["long"]);
    }
    assert_eq!(payloads(&tree.find_overlapping(100)), ["long", "top"]);
    let rows = tree.outline();
    assert_eq!(rows[0].node.as_ref().unwrap().1, 1000);
}

#[test]
fn random_sets_agree_with_a_scan() {
    let mut random = Random(0x5eed);
    for round in 0..40 {
        let mut tree = IntervalTree::new();
        let mut stored: Vec<(i64, i64, String)> = Vec::new();
        let count = 1 + random.below(60);
        for i in 0..count {
            let start = random.below(50) - 10;
            let end = start + random.below(20) - 2;
            let data = format!("{}-{}", round, i);
            tree.insert(start, end, data.clone());
            stored.push((start, end, data));
        }
        assert_eq!(triples(&tree.get_all_intervals()), in_order(&stored));
        for point in -15..65 {
            assert_eq!(triples(&tree.find_overlapping(point)), scan(&stored, point));
        }
        for item in &stored {
            for point in [item.0, item.1] {
                assert_eq!(triples(&tree.find_overlapping(point)), scan(&stored, point));
            }
        }
    }
}

#[test]
fn result_does_not_depend_on_insertion_order() {
    let items: Vec<(i64, i64)> = (0..30).map(|i| (i * 7 % 31, i * 7 % 31 + i % 9)).collect();
    let mut forward = IntervalTree::new();
    for (start, end) in items.iter() {
        forward.insert(*start, *end, format!("{}", start));
    }
    let mut backward = IntervalTree::new();
    for (start, end) in items.iter().rev() {
        backward.insert(*start, *end, format!("{}", start));
    }
    for point in -1..45 {
        assert_eq!(
            triples(&forward.find_overlapping(point)),
            triples(&backward.find_overlapping(point))
        );
    }
}

#[test]
fn traversal_is_sorted_by_start() {
    let mut random = Random(77);
    let mut tree = IntervalTree::new();
    for _ in 0..500 {
        let start = random.below(200) - 100;
        tree.insert(start, start + random.below(10), String::new());
        let all = tree.get_all_intervals();
        assert!(all.windows(2).all(|pair| pair[0].start() <= pair[1].start()));
    }
    assert_eq!(tree.size(), 500);
}

#[test]
fn every_node_is_balanced() {
    let mut random = Random(4242);
    let mut tree = IntervalTree::new();
    for _ in 0..300 {
        let start = random.below(1000);
        tree.insert(start, start + random.below(50), String::new());
        let rows = tree.outline();
        for at in 0..rows.len() {
            if rows[at].node.is_none() {
                continue;
            }
            let left = child(&rows, at, Branch::Left).map_or(0, |row| height_of(&rows, row));
            let right = child(&rows, at, Branch::Right).map_or(0, |row| height_of(&rows, row));
            assert!(left <= right + 1 && right <= left + 1);
        }
        assert_eq!(height_of(&rows, 0) as i32, tree.height());
    }
}

#[test]
fn every_node_parts_the_starts_below_it() {
    let mut random = Random(99);
    let mut tree = IntervalTree::new();
    for _ in 0..200 {
        let start = random.below(60);
        tree.insert(start, start + random.below(50), String::new());
    }
    let rows = tree.outline();
    for at in 0..rows.len() {
        let Some(node) = rows[at].node.as_ref() else { continue };
        for (branch, below) in [(Branch::Left, true), (Branch::Right, false)] {
            let Some(row) = child(&rows, at, branch) else { continue };
            for other in subtree(&rows, row) {
                let Some(other) = other.node.as_ref() else { continue };
                if below {
                    assert!(other.0.start() <= node.0.start());
                } else {
                    assert!(other.0.start() >= node.0.start());
                }
            }
        }
    }
}

#[test]
fn distinct_starts_are_parted_strictly() {
    let mut tree = IntervalTree::new();
    for i in 0..200 {
        let start = (i * 73) % 211;
        tree.insert(start, start + 5, String::new());
    }
    let rows = tree.outline();
    for at in 0..rows.len() {
        let Some(node) = rows[at].node.as_ref() else { continue };
        if let Some(row) = child(&rows, at, Branch::Right) {
            for other in subtree(&rows, row) {
                if let Some(other) = other.node.as_ref() {
                    assert!(other.0.start() > node.0.start());
                }
            }
        }
    }
}

#[test]
fn equal_starts_can_stand_to_the_right() {
    let mut tree = IntervalTree::new();
    tree.insert(5, 5, String::from("a"));
    tree.insert(5, 5, String::from("b"));
    tree.insert(5, 5, String::from("c"));
    let rows = tree.outline();
    let shown: Vec<(usize, Branch, String)> = rows
        .iter()
        .map(|row| (row.level, row.branch, row.node.as_ref().unwrap().0.data()))
        .collect();
    assert_eq!(
        shown,
        [
            (0, Branch::Root, String::from("b")),
            (1, Branch::Left, String::from("c")),
            (1, Branch::Right, String::from("a")),
        ]
    );
}

#[test]
fn every_node_knows_the_largest_end_below_it() {
    let mut random = Random(31337);
    let mut tree = IntervalTree::new();
    for _ in 0..300 {
        let start = random.below(500);
        tree.insert(start, start + random.below(400) - 50, String::new());
        let rows = tree.outline();
        for at in 0..rows.len() {
            let Some(node) = rows[at].node.as_ref() else { continue };
            let largest = subtree(&rows, at)
                .iter()
                .filter_map(|row| row.node.as_ref())
                .map(|node| node.0.end())
                .max()
                .unwrap();
            assert_eq!(node.1, largest);
        }
    }
}

#[test]
fn increasing_starts_give_a_low_tree() {
    let mut tree = IntervalTree::new();
    for i in 0..8 {
        tree.insert(i, i + 1, String::new());
        let n = (i + 1) as usize;
        assert!(tree.height() <= ceil_log2(n + 1) + 1);
    }
    assert_eq!(tree.height(), 4);
}

#[test]
fn increasing_starts_give_the_lowest_tree() {
    let mut tree = IntervalTree::new();
    for i in 0..2000 {
        tree.insert(i, i, String::new());
        let n = (i + 1) as usize;
        assert_eq!(tree.height(), ceil_log2(n + 1));
    }
}

#[test]
fn seven_increasing_starts_fill_three_levels() {
    let mut tree = IntervalTree::new();
    for i in 0..7 {
        tree.insert(i, i, format!("{}", i));
    }
    assert_eq!(tree.height(), 3);
    let rows = tree.outline();
    let shown: Vec<(usize, Branch, String)> = rows
        .iter()
        .map(|row| (row.level, row.branch, row.node.as_ref().unwrap().0.data()))
        .collect();
    let at = |level, branch, data: &str| (level, branch, data.to_string());
    assert_eq!(
        shown,
        [
            at(0, Branch::Root, "3"),
            at(1, Branch::Left, "1"),
            at(2, Branch::Left, "0"),
            at(2, Branch::Right, "2"),
            at(1, Branch::Right, "5"),
            at(2, Branch::Left, "4"),
            at(2, Branch::Right, "6"),
        ]
    );
}

#[test]
fn decreasing_starts_give_a_low_tree() {
    let mut tree = IntervalTree::new();
    for i in 0..1000 {
        tree.insert(-i, i, String::new());
        let n = (i + 1) as usize;
        assert!(tree.height() <= ceil_log2(n + 1) + 1);
    }
}

#[test]
fn height_stays_logarithmic() {
    let mut random = Random(2024);
    let mut tree = IntervalTree::new();
    for i in 0..5000usize {
        tree.insert(random.below(1 << 30), 0, String::new());
        // Half the height of a balanced tree, as a power of two, is at most
        // the number of nodes plus one.
        assert!(1usize << (tree.height() / 2) <= i + 2);
    }
}

#[test]
fn each_of_the_four_rotations() {
    let build = |starts: [i64; 3]| {
        let mut tree = IntervalTree::new();
        for start in starts {
            tree.insert(start, start + 10, format!("{}", start));
        }
        let rows = tree.outline();
        let shown: Vec<(usize, Branch, String, i64)> = rows
            .iter()
            .map(|row| {
                let node = row.node.as_ref().unwrap();
                (row.level, row.branch, node.0.data(), node.1)
            })
            .collect();
        (tree.height(), shown)
    };
    let expected = (
        2,
        vec![
            (0, Branch::Root, String::from("2"), 13),
            (1, Branch::Left, String::from("1"), 11),
            (1, Branch::Right, String::from("3"), 13),
        ],
    );
    assert_eq!(build([3, 2, 1]), expected);
    assert_eq!(build([1, 2, 3]), expected);
    assert_eq!(build([3, 1, 2]), expected);
    assert_eq!(build([1, 3, 2]), expected);
}

#[test]
fn print_tree_of_the_empty_tree() {
    assert_eq!(IntervalTree::new().print_tree(), "Empty tree");
}

#[test]
fn print_tree_of_a_single_node() {
    let mut tree = IntervalTree::new();
    tree.insert(1, 3, String::from("A"));
    assert_eq!(tree.print_tree(), "Root: [1, 3] (A) (max_end: 3)\n");
}

#[test]
fn print_tree_with_one_child() {
    let mut tree = IntervalTree::new();
    tree.insert(1, 3, String::from("A"));
    tree.insert(2, 9, String::from("B"));
    assert_eq!(
        tree.print_tree(),
        "Root: [1, 3] (A) (max_end: 9)\n    L--- None\n    R--- [2, 9] (B) (max_end: 9)\n"
    );
}

#[test]
fn print_tree_of_the_sample_in_tenths() {
    let mut tree = IntervalTree::new();
    let intervals = [
        (15, 32, "A"),
        (21, 57, "B"),
        (43, 78, "C"),
        (65, 89, "D"),
        (81, 104, "E"),
        (93, 126, "F"),
        (5, 23, "G"),
    ];
    for (start, end, data) in intervals {
        tree.insert(start, end, data.to_string());
    }
    let expected = "\
Root: [65, 89] (D) (max_end: 126)
    L--- [21, 57] (B) (max_end: 78)
        L--- [15, 32] (A) (max_end: 32)
            L--- [5, 23] (G) (max_end: 23)
            R--- None
        R--- [43, 78] (C) (max_end: 78)
    R--- [81, 104] (E) (max_end: 126)
        L--- None
        R--- [93, 126] (F) (max_end: 126)
";
    assert_eq!(tree.print_tree(), expected);
    assert_eq!(rows_to_string(&tree.outline()), expected);
}

#[test]
fn rows_as_text() {
    let row = Row { level: 2, branch: Branch::Left, node: Some((Interval::new(-4, 8, String::from("n")), 12)) };
    assert_eq!(row.to_string(), "        L--- [-4, 8] (n) (max_end: 12)\n");
    let row = Row { level: 1, branch: Branch::Right, node: None };
    assert_eq!(row.to_string(), "    R--- None\n");
    let row = Row { level: 0, branch: Branch::Root, node: None };
    assert_eq!(row.to_string(), "Root: None\n");
    assert_eq!(rows_to_string(&Vec::new()), "");
}

#[test]
fn branch_labels() {
    assert_eq!(Branch::Root.label_str(), "Root: ");
    assert_eq!(Branch::Left.label_str(), "L--- ");
    assert_eq!(Branch::Right.label_str(), "R--- ");
}
