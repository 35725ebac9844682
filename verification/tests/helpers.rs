use workbench::fs_map::{entry_action, skips, EntryAction};
use workbench::grid::{grid_cells, grid_shape};
use workbench::json_split::{strip_extension, chunk_file_name, chunk_ranges, chunk_size, derive_dest_from_src};
use workbench::life::{kth_free_cell, sort, Coordinate, Life};
use workbench::paths::{extension, extension_of_name};
use workbench::slices::split_at_mut;
use workbench::text::{decimal, is_white_space, split_whitespace};
use workbench::text_image::image_size;

#[test]
fn entries_are_deleted_skipped_or_walked() {
    assert_eq!(entry_action("target", true), EntryAction::DeleteAndStop);
    assert_eq!(entry_action("node_modules", true), EntryAction::Stop);
    assert_eq!(entry_action(".git", true), EntryAction::Stop);
    assert_eq!(entry_action("docs", true), EntryAction::Descend);
    assert_eq!(entry_action("target", false), EntryAction::Ignore);
    assert_eq!(skips().len(), 8);
}

#[test]
fn chunk_sizes() {
    assert_eq!(chunk_size(None, Some(4), 10), 4);
    assert_eq!(chunk_size(Some(3), None, 10), 3);
    assert_eq!(chunk_size(None, None, 10), 1);
}

#[test]
fn chunk_ranges_cover_the_array() {
    assert_eq!(chunk_ranges(10, 4), vec![(0, 4), (4, 8), (8, 10)]);
    assert_eq!(chunk_ranges(8, 4), vec![(0, 4), (4, 8)]);
    assert_eq!(chunk_ranges(0, 3), vec![]);
    assert_eq!(chunk_file_name(12), "12.json");
    assert_eq!(chunk_file_name(0), "0.json");
}

#[test]
fn destination_folder_drops_the_extension() {
    assert_eq!(derive_dest_from_src("data/items.json"), Some("data/items".to_string()));
    assert_eq!(derive_dest_from_src("items.json"), Some("items".to_string()));
    assert_eq!(derive_dest_from_src("/tmp/archive.tar.gz"), Some("/tmp/archive.tar".to_string()));
    assert_eq!(derive_dest_from_src("/tmp/.hidden"), Some("/tmp/.hidden".to_string()));
    assert_eq!(derive_dest_from_src("/"), None);
}

#[test]
fn extensions_follow_the_last_dot() {
    assert_eq!(extension_of_name("a.b.c"), Some("c".to_string()));
    assert_eq!(extension_of_name(".bashrc"), None);
    assert_eq!(extension_of_name("noext"), None);
    assert_eq!(extension_of_name("trail."), Some(String::new()));
    assert_eq!(extension("dir.d/file"), None);
    assert_eq!(extension("dir/file.rs"), Some("rs".to_string()));
}

#[test]
fn text_helpers() {
    assert_eq!(decimal(0), "0");
    assert_eq!(decimal(907), "907");
    assert_eq!(decimal(u64::MAX), u64::MAX.to_string());
    assert!(is_white_space(' ') && is_white_space('\u{3000}') && !is_white_space('x'));
    assert_eq!(split_whitespace("  GET /a\t HTTP/1.1\r\n"), vec!["GET", "/a", "HTTP/1.1"]);
    assert!(split_whitespace("").is_empty());
}

#[test]
fn sort_orders_values() {
    assert_eq!(sort(&vec![3, -1, 2, -1]), vec![-1, -1, 2, 3]);
    assert!(sort(&vec![]).is_empty());
}

#[test]
fn random_life_has_distinct_cells_in_the_box() {
    let life = Life::generate_random_life(4, 6, 24);
    assert_eq!(life.alive_cells.len(), 24);
    for (i, c) in life.alive_cells.iter().enumerate() {
        assert!((-2..2).contains(&c.x) && (-3..3).contains(&c.y));
        assert!(!life.alive_cells[..i].contains(c));
    }
    let small = Life::generate_random_life(100, 100, 100);
    assert_eq!(small.alive_cells.len(), 100);
}

#[test]
fn life_axes_are_sorted() {
    let life = Life {
        alive_cells: vec![Coordinate { x: 3, y: -1 }, Coordinate { x: -2, y: 5 }, Coordinate { x: 0, y: 0 }],
    };
    let (xs, ys) = life.sorted_axes();
    assert_eq!(xs, vec![-2, 0, 3]);
    assert_eq!(ys, vec![-1, 0, 5]);
    assert!(life.get_changed_state().is_empty());
    assert!(Life::default().alive_cells.is_empty());
}

#[test]
fn grid_shapes() {
    assert_eq!(grid_shape(1), (1, 1));
    assert_eq!(grid_shape(10), (4, 3));
    assert_eq!(grid_shape(16), (4, 4));
    assert_eq!(grid_shape(17), (5, 4));
    assert_eq!(grid_cells(5, 2), vec![(0, 0), (0, 1), (1, 0), (1, 1), (2, 0)]);
}

#[test]
fn image_width_rounds_up_to_eight() {
    assert_eq!(image_size(13, 7), (16, 7));
    assert_eq!(image_size(16, 2), (16, 2));
    assert_eq!(image_size(0, 0), (0, 0));
}

#[test]
fn split_at_mut_writes_through() {
    let mut v = vec![1, 2, 3, 4, 5];
    {
        let (a, b) = split_at_mut(&mut v, 2);
        assert_eq!(a, &[1, 2]);
        assert_eq!(b, &[3, 4, 5]);
        a[0] = 10;
        b[2] = 50;
    }
    assert_eq!(v, vec![10, 2, 3, 4, 50]);
}

#[test]
fn pieces_tile_the_array() {
    for len in 0..30usize {
        for size in 1..7usize {
            let r = chunk_ranges(len, size);
            let mut at = 0;
            for (s, e) in &r {
                assert_eq!(*s, at);
                assert!(s < e && e - s <= size);
                at = *e;
            }
            assert_eq!(at, len);
        }
    }
}

#[test]
fn numerals_read_back() {
    for n in [0u64, 7, 10, 99, 100, 123456789, u64::MAX] {
        let text = decimal(n);
        assert_eq!(text.parse::<u64>().unwrap(), n);
        assert!(n == 0 || !text.starts_with('0'));
    }
}

#[test]
fn words_are_nonblank() {
    for w in split_whitespace(" a\u{2003}bc \n\td  ") {
        assert!(!w.is_empty());
        assert!(!w.chars().any(|c| c.is_whitespace()));
    }
}

#[test]
fn grid_cells_are_distinct_and_inside() {
    for n in 1..40usize {
        let (rows, cols) = grid_shape(n);
        let cells = grid_cells(n, cols);
        for (i, (r, c)) in cells.iter().enumerate() {
            assert!(*r < rows && *c < cols);
            assert!(!cells[..i].contains(&(*r, *c)));
        }
    }
}

#[test]
fn extension_splits_the_name() {
    for name in ["a.b.c", "x.tar.gz", "trail.", "b.rs"] {
        let ext = extension_of_name(name).unwrap();
        let stem = &name[..name.len() - ext.len() - 1];
        assert!(!stem.is_empty());
        assert_eq!(format!("{stem}.{ext}"), name);
        assert!(!ext.contains('.'));
    }
}

#[test]
fn subnet_hosts_run_from_zero_to_254() {
    let hosts = workbench::subnet::host_addresses("192.168.0.");
    assert_eq!(hosts.len(), 255);
    assert_eq!(hosts[0], "192.168.0.0");
    assert_eq!(hosts[254], "192.168.0.254");
    for (i, h) in hosts.iter().enumerate() {
        let parts: Vec<u32> = h.split('.').map(|p| p.parse().unwrap()).collect();
        assert_eq!(parts, vec![192, 168, 0, i as u32]);
    }
}

#[test]
fn stems_drop_the_last_extension() {
    assert_eq!(strip_extension("items.json"), "items");
    assert_eq!(strip_extension("archive.tar.gz"), "archive.tar");
    assert_eq!(strip_extension(".bashrc"), ".bashrc");
    assert_eq!(strip_extension("README"), "README");
    assert_eq!(strip_extension("trail."), "trail");
}

#[test]
fn kth_free_cell_counts_free_cells_column_by_column() {
    let alive = vec![Coordinate { x: 0, y: 1 }];
    assert_eq!(kth_free_cell(&alive, 0, 0, 2, 2, 0), Coordinate { x: 0, y: 0 });
    assert_eq!(kth_free_cell(&alive, 0, 0, 2, 2, 1), Coordinate { x: 1, y: 0 });
    assert_eq!(kth_free_cell(&alive, 0, 0, 2, 2, 2), Coordinate { x: 1, y: 1 });
    let none_alive: Vec<Coordinate> = vec![];
    assert_eq!(kth_free_cell(&none_alive, -3, -2, 3, 4, 5), Coordinate { x: -2, y: -1 });
}
