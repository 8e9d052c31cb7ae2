use balancebeam::breakpoints::{
    align_addr_to_word, patch_byte_in_word, BreakPoint, BreakPointTable,
};
use balancebeam::commands::{parse_address, str_eq, DebuggerCommand};
use balancebeam::diff::{compute_diff, lcs, usize_to_decimal, Grid, IndexSet};
use balancebeam::list::LinkedList;
use balancebeam::parmap::place_results;
use balancebeam::warmup::{add_n, add_n_inplace, dedup};
use balancebeam::wordcount::{count_words, split_words};

#[test]
fn test_add_n() {
    assert_eq!(add_n(vec![1], 2), vec![3]);
}

#[test]
fn test_add_n_inplace() {
    let mut v = vec![1];
    add_n_inplace(&mut v, 2);
    assert_eq!(v, vec![3]);
}

#[test]
fn test_dedup() {
    let mut v = vec![3, 1, 0, 1, 4, 4];
    dedup(&mut v);
    assert_eq!(v, vec![3, 1, 0, 4]);
}

#[test]
fn dedup_edge_cases() {
    let mut v: Vec<i32> = vec![];
    dedup(&mut v);
    assert_eq!(v, Vec::<i32>::new());
    let mut v = vec![7, 7, 7, 7];
    dedup(&mut v);
    assert_eq!(v, vec![7]);
}

#[test]
fn add_n_empty_vector() {
    assert_eq!(add_n(vec![], 5), Vec::<i32>::new());
    let mut v: Vec<i32> = vec![];
    add_n_inplace(&mut v, 5);
    assert_eq!(v, Vec::<i32>::new());
}

#[test]
fn test_lcs() {
    let mut expected = Grid::new(4, 3);
    expected.set(0, 0, 1).unwrap();
    expected.set(0, 1, 1).unwrap();
    expected.set(0, 2, 1).unwrap();
    expected.set(1, 0, 1).unwrap();
    expected.set(1, 1, 1).unwrap();
    expected.set(1, 2, 2).unwrap();
    expected.set(2, 0, 1).unwrap();
    expected.set(2, 1, 1).unwrap();
    expected.set(2, 2, 2).unwrap();
    expected.set(3, 0, 1).unwrap();
    expected.set(3, 1, 2).unwrap();
    expected.set(3, 2, 2).unwrap();

    println!("Expected:");
    expected.display();
    let result = lcs(
        &"abcd".chars().map(|c| c.to_string()).collect(),
        &"adb".chars().map(|c| c.to_string()).collect(),
    );
    println!("Got:");
    result.display();
    assert_eq!(result.size(), expected.size());
    for row in 0..expected.size().0 {
        for col in 0..expected.size().1 {
            assert_eq!(result.get(row, col), expected.get(row, col));
        }
    }
}

#[test]
fn grid_bounds_are_checked() {
    let mut g = Grid::new(2, 2);
    assert!(g.set(0, 0, 5).is_ok());
    assert_eq!(g.get(0, 0), Some(5));
    assert!(g.set(2, 0, 1).is_err());
    assert!(g.set(0, 2, 1).is_err());
    assert_eq!(g.get(2, 0), None);
    assert_eq!(g.get(0, 2), None);
}

#[test]
fn grid_display_renders_rows() {
    let mut g = Grid::new(2, 2);
    g.set(0, 0, 1).unwrap();
    g.set(1, 1, 23).unwrap();
    assert_eq!(g.display(), "1 0 \n0 23 \n");
}

#[test]
fn decimal_rendering() {
    assert_eq!(usize_to_decimal(0), "0");
    assert_eq!(usize_to_decimal(7), "7");
    assert_eq!(usize_to_decimal(12345), "12345");
    assert_eq!(usize_to_decimal(1000), "1000");
}

#[test]
fn index_set_keeps_sorted_unique_elements() {
    let mut s = IndexSet::new();
    s.insert(5);
    s.insert(1);
    s.insert(3);
    s.insert(5);
    s.insert(1);
    assert_eq!(s.to_vec(), vec![1, 3, 5]);
    assert_eq!(s.len(), 3);
    assert!(s.contains_index(3));
    assert!(!s.contains_index(2));
}

#[test]
fn compute_diff_small_example() {
    let lines1: Vec<String> = ["a", "b", "c"].iter().map(|s| s.to_string()).collect();
    let lines2: Vec<String> = ["a", "c", "d"].iter().map(|s| s.to_string()).collect();
    let grid = lcs(&lines1, &lines2);
    let (dels, adds) = compute_diff(&grid, &lines1, &lines2).unwrap();
    assert_eq!(dels, vec![1]);
    assert_eq!(adds, vec![(3, 2)]);
}

#[test]
fn compute_diff_identical_files() {
    let lines: Vec<String> = ["x", "y"].iter().map(|s| s.to_string()).collect();
    let grid = lcs(&lines, &lines);
    let (dels, adds) = compute_diff(&grid, &lines, &lines).unwrap();
    assert_eq!(dels, Vec::<usize>::new());
    assert_eq!(adds, Vec::<(usize, usize)>::new());
}

#[test]
fn parse_address_accepts_hex_with_and_without_prefix() {
    assert_eq!(parse_address("0x1f"), Some(31));
    assert_eq!(parse_address("0X1F"), Some(31));
    assert_eq!(parse_address("1F"), Some(31));
    assert_eq!(parse_address("deadbeef"), Some(0xdeadbeef));
    assert_eq!(parse_address("+ff"), Some(255));
}

#[test]
fn parse_address_rejects_bad_input() {
    assert_eq!(parse_address(""), None);
    assert_eq!(parse_address("0x"), None);
    assert_eq!(parse_address("zz"), None);
    assert_eq!(parse_address("12g4"), None);
    // a minus sign never parses for a machine word, not even before zero
    assert_eq!(parse_address("-0"), None);
    assert_eq!(parse_address("0x-0"), None);
    assert_eq!(parse_address("-5"), None);
    // one hexadecimal digit beyond the largest machine word
    assert_eq!(parse_address("0x10000000000000000"), None);
}

#[test]
fn from_tokens_parses_each_command() {
    assert!(matches!(
        DebuggerCommand::from_tokens(&vec!["q"]),
        Some(DebuggerCommand::Quit)
    ));
    assert!(matches!(
        DebuggerCommand::from_tokens(&vec!["quit"]),
        Some(DebuggerCommand::Quit)
    ));
    match DebuggerCommand::from_tokens(&vec!["run", "prog", "arg1"]) {
        Some(DebuggerCommand::Run(args)) => assert_eq!(args, vec!["prog", "arg1"]),
        _ => panic!("run not parsed"),
    }
    assert!(matches!(
        DebuggerCommand::from_tokens(&vec!["c"]),
        Some(DebuggerCommand::ContinueRun)
    ));
    assert!(matches!(
        DebuggerCommand::from_tokens(&vec!["backtrace"]),
        Some(DebuggerCommand::BackTrace)
    ));
    match DebuggerCommand::from_tokens(&vec!["b", "*0x40a0"]) {
        Some(DebuggerCommand::Break(loc)) => assert_eq!(loc, "*0x40a0"),
        _ => panic!("break not parsed"),
    }
    assert!(DebuggerCommand::from_tokens(&vec!["frobnicate"]).is_none());
}

#[test]
fn str_eq_compares_by_characters() {
    assert!(str_eq("abc", "abc"));
    assert!(!str_eq("abc", "abd"));
    assert!(!str_eq("abc", "ab"));
    assert!(str_eq("", ""));
}

#[test]
fn align_addr_rounds_down_to_word() {
    assert_eq!(align_addr_to_word(0), 0);
    assert_eq!(align_addr_to_word(7), 0);
    assert_eq!(align_addr_to_word(8), 8);
    assert_eq!(align_addr_to_word(13), 8);
    assert_eq!(align_addr_to_word(0x40a7), 0x40a0);
}

#[test]
fn patch_byte_replaces_exactly_one_byte() {
    let word = 0x1122334455667788u64;
    let (updated, orig) = patch_byte_in_word(word, 1, 0xaa);
    assert_eq!(orig, 0x77);
    assert_eq!(updated, 0x112233445566aa88);
    let (updated2, orig2) = patch_byte_in_word(word, 7, 0xcc);
    assert_eq!(orig2, 0x11);
    assert_eq!(updated2, 0xcc22334455667788);
}

#[test]
fn breakpoint_table_inserts_and_replaces() {
    let mut table = BreakPointTable::new();
    assert_eq!(table.len(), 0);
    table.insert(BreakPoint { address: 0x400a, orig_byte: 0x55 });
    table.insert(BreakPoint { address: 0x400b, orig_byte: 0x66 });
    assert_eq!(table.len(), 2);
    assert_eq!(
        table.get(0x400a),
        Some(BreakPoint { address: 0x400a, orig_byte: 0x55 })
    );
    assert_eq!(table.get(0x9999), None);
    // re-inserting the same address replaces the entry
    table.insert(BreakPoint { address: 0x400a, orig_byte: 0x77 });
    assert_eq!(table.len(), 2);
    assert_eq!(
        table.get(0x400a),
        Some(BreakPoint { address: 0x400a, orig_byte: 0x77 })
    );
    let mut addrs = table.addresses();
    addrs.sort();
    assert_eq!(addrs, vec![0x400a, 0x400b]);
}

#[test]
fn linked_list_push_pop_and_size() {
    let mut list: LinkedList<u32> = LinkedList::new();
    assert!(list.empty());
    assert_eq!(list.get_size(), 0);
    for i in 1..=10 {
        list.push(i);
    }
    assert_eq!(list.get_size(), 10);
    assert!(!list.empty());
    assert_eq!(list.pop(), Some(10));
    assert_eq!(list.get_size(), 9);
    while !list.empty() {
        list.pop();
    }
    assert_eq!(list.get_size(), 0);
    assert_eq!(list.pop(), None);
}

#[test]
fn linked_list_clone_is_independent() {
    let mut list1: LinkedList<i32> = LinkedList::new();
    for i in 1..=10 {
        list1.push(i);
    }
    let mut list2 = list1.clone();
    assert_eq!(list2.pop(), Some(10));
    assert_eq!(list2.pop(), Some(9));
    assert_eq!(list1.get_size(), 10);
    assert_eq!(list2.get_size(), 8);
    assert_eq!(list1.pop(), Some(10));
}

#[test]
fn linked_list_iter_yields_front_first() {
    let mut list: LinkedList<u32> = LinkedList::new();
    for i in 1..=5 {
        list.push(i);
    }
    let mut it = list.iter();
    let mut got = Vec::new();
    while let Some(v) = it.next() {
        got.push(v);
    }
    assert_eq!(got, vec![5, 4, 3, 2, 1]);
    // the list itself is untouched
    assert_eq!(list.get_size(), 5);
}

#[test]
fn place_results_scatters_by_index() {
    let pairs = vec![(2usize, 30i64), (0, 10), (4, 50), (1, 20), (3, 40)];
    let out = place_results(5, 0i64, &pairs);
    assert_eq!(out, vec![10, 20, 30, 40, 50]);
    // later pairs win over earlier ones for the same index
    let pairs = vec![(1usize, 7i64), (1, 9)];
    let out = place_results(3, 0i64, &pairs);
    assert_eq!(out, vec![0, 9, 0]);
}

#[test]
fn split_words_keeps_empty_segments() {
    assert_eq!(split_words("a b c"), vec!["a", "b", "c"]);
    assert_eq!(split_words("a  b"), vec!["a", "", "b"]);
    assert_eq!(split_words(""), vec![""]);
    assert_eq!(split_words(" lead"), vec!["", "lead"]);
    assert_eq!(split_words("trail "), vec!["trail", ""]);
}

#[test]
fn count_words_tallies_occurrences() {
    let words: Vec<String> =
        ["the", "cat", "the", "hat", "the"].iter().map(|s| s.to_string()).collect();
    let counts = count_words(&words);
    let mut as_pairs: Vec<(String, usize)> = counts;
    as_pairs.sort();
    assert_eq!(
        as_pairs,
        vec![
            ("cat".to_string(), 1),
            ("hat".to_string(), 1),
            ("the".to_string(), 3)
        ]
    );
}

#[test]
fn linked_list_equality_is_structural() {
    let mut list1: LinkedList<i32> = LinkedList::new();
    let mut list2: LinkedList<i32> = LinkedList::new();
    for i in 1..=10 {
        list1.push(i);
        list2.push(i);
    }
    assert!(list1 == list2);
    list2.pop();
    assert!(list1 != list2);
    list2.push(100);
    assert!(list1 != list2);
    list2.pop();
    list2.push(10);
    assert!(list1 == list2);
}
