use cccl_composer::resources::allocate;
use cccl_composer::text::{concatenate, contains_infix, join_path, parse_progress, to_decimal};

#[test]
fn progress_line_with_marker() {
    assert_eq!(parse_progress("[3/10] Building foo.o"), Some((3, 10)));
}

#[test]
fn progress_line_without_marker() {
    assert_eq!(parse_progress("Building foo.o"), None);
}

#[test]
fn progress_leading_zeros() {
    assert_eq!(parse_progress("[03/010]"), Some((3, 10)));
}

#[test]
fn progress_rejects_malformed_markers() {
    assert_eq!(parse_progress(""), None);
    assert_eq!(parse_progress("["), None);
    assert_eq!(parse_progress("[/10] x"), None);
    assert_eq!(parse_progress("[3/] x"), None);
    assert_eq!(parse_progress("[3/10"), None);
    assert_eq!(parse_progress(" [3/10] x"), None);
    assert_eq!(parse_progress("[3 /10] x"), None);
    assert_eq!(parse_progress("[3/10x]"), None);
}

#[test]
fn progress_largest_and_overflowing_numbers() {
    assert_eq!(
        parse_progress("[18446744073709551615/18446744073709551615] done"),
        Some((u64::MAX, u64::MAX))
    );
    assert_eq!(parse_progress("[18446744073709551616/1]"), None);
    assert_eq!(parse_progress("[1/99999999999999999999999]"), None);
}

#[test]
fn progress_non_ascii_text_after_marker() {
    assert_eq!(parse_progress("[7/8] Übersetze ✓"), Some((7, 8)));
}

#[test]
fn decimal_writing() {
    assert_eq!(to_decimal(0), "0");
    assert_eq!(to_decimal(7), "7");
    assert_eq!(to_decimal(10), "10");
    assert_eq!(to_decimal(4096), "4096");
    assert_eq!(to_decimal(u64::MAX), "18446744073709551615");
}

#[test]
fn joining_paths() {
    assert_eq!(join_path("/usr/local/cuda", "bin"), "/usr/local/cuda/bin");
    assert_eq!(join_path("/usr/local/cuda/", "bin"), "/usr/local/cuda/bin");
    assert_eq!(join_path("", "bin"), "bin");
    assert_eq!(join_path("/work", "/abs"), "/abs");
    assert_eq!(concatenate("-j", "8"), "-j8");
}

#[test]
fn infix_search() {
    assert!(contains_infix("nvhpc-22.7", "nvhpc"));
    assert!(contains_infix("my/nvhpc", "nvhpc"));
    assert!(!contains_infix("gcc-12", "nvhpc"));
    assert!(!contains_infix("nvhp", "nvhpc"));
    assert!(contains_infix("abc", ""));
}

#[test]
fn allocation_fewer_cells_than_cpus() {
    assert_eq!(allocate(2, 8), (2, 4));
}

#[test]
fn allocation_more_cells_than_cpus() {
    assert_eq!(allocate(10, 4), (4, 1));
}

#[test]
fn allocation_leaves_remainder_unused() {
    // 8 CPUs over 3 cells: 3 at once with 2 jobs each, 2 CPUs idle
    assert_eq!(allocate(3, 8), (3, 2));
}

#[test]
fn allocation_bounds_hold_over_a_range() {
    for cells in 1..40usize {
        for cpus in 1..40usize {
            let (concurrency, threads) = allocate(cells, cpus);
            assert!(concurrency >= 1 && threads >= 1);
            assert!(concurrency <= cells && concurrency <= cpus);
            assert!(concurrency * threads <= cpus);
        }
    }
}

#[test]
fn allocation_single_cpu() {
    assert_eq!(allocate(1, 1), (1, 1));
    assert_eq!(allocate(usize::MAX, 1), (1, 1));
}
