use mmap_io::ranges::{align_down, align_up, enclosing_window};

#[test]
fn test_align_down_values() {
    assert_eq!(align_down(0, 4096), 0);
    assert_eq!(align_down(1, 4096), 0);
    assert_eq!(align_down(4095, 4096), 0);
    assert_eq!(align_down(4096, 4096), 4096);
    assert_eq!(align_down(5000, 4096), 4096);
    assert_eq!(align_down(12288, 4096), 12288);
    assert_eq!(align_down(7, 1), 7);
}

#[test]
fn test_align_up_values() {
    assert_eq!(align_up(0, 4096), Some(0));
    assert_eq!(align_up(1, 4096), Some(4096));
    assert_eq!(align_up(4096, 4096), Some(4096));
    assert_eq!(align_up(4097, 4096), Some(8192));
    assert_eq!(align_up(8193, 4096), Some(12288));
    assert_eq!(align_up(usize::MAX, 4096), None);
}

#[test]
fn test_enclosing_window_microflush() {
    // A 512-byte range at the start of a 64 KiB region widens to exactly one
    // page.
    assert_eq!(enclosing_window(0, 512, 64 * 1024, 4096), (0, 4096));
}

#[test]
fn test_enclosing_window_interior() {
    // A range straddling nothing but the second page.
    assert_eq!(enclosing_window(5000, 100, 64 * 1024, 4096), (4096, 8192));
    // A range straddling a page boundary widens to both pages.
    assert_eq!(enclosing_window(4000, 200, 64 * 1024, 4096), (0, 8192));
}

#[test]
fn test_enclosing_window_clipped_at_region_end() {
    // The region is shorter than the page the range ends in: the window is
    // clipped to the region.
    assert_eq!(enclosing_window(0, 100, 100, 4096), (0, 100));
    assert_eq!(enclosing_window(96, 4, 100, 4096), (0, 100));
}

#[test]
fn test_enclosing_window_empty_range() {
    assert_eq!(enclosing_window(0, 0, 4096, 4096), (0, 0));
    assert_eq!(enclosing_window(4096, 0, 8192, 4096), (4096, 4096));
}
