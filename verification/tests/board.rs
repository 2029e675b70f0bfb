use jcblocktui::block_index::DisplayPointStatus;
use jcblocktui::board_view::block_within_bounds;
use jcblocktui::board_view::display_grid;

#[test]
fn bounds_check_accepts_and_rejects() {
    let block = vec![(0, 0), (1, 0), (0, 1)];
    assert!(block_within_bounds(&block, 0, 0, 3, 2));
    assert!(block_within_bounds(&block, 1, 0, 3, 2));
    assert!(!block_within_bounds(&block, 2, 0, 3, 2));
    assert!(!block_within_bounds(&block, -1, 0, 3, 2));
    assert!(!block_within_bounds(&block, 0, 1, 3, 2));
    assert!(block_within_bounds(&vec![], 100, 100, 3, 2));
}

#[test]
fn hover_overlay_without_conflict() {
    let occ = vec![false, false, false, false, false, false];
    let block = vec![(0, 0), (1, 0)];
    let grid = display_grid(&occ, 3, 2, &block, 0, 0);
    assert_eq!(
        grid,
        vec![
            DisplayPointStatus::Hovered {
                has_conflict: false
            },
            DisplayPointStatus::Hovered {
                has_conflict: false
            },
            DisplayPointStatus::Unoccupied,
            DisplayPointStatus::Unoccupied,
            DisplayPointStatus::Unoccupied,
            DisplayPointStatus::Unoccupied,
        ]
    );
}

#[test]
fn conflicting_hover_is_marked_and_blocks_blast() {
    // row 0 of a 2x2 board is occupied; the block overlaps one occupied cell
    let occ = vec![true, true, false, false];
    let block = vec![(0, 0), (0, 1)];
    let grid = display_grid(&occ, 2, 2, &block, 0, 0);
    assert_eq!(
        grid,
        vec![
            DisplayPointStatus::Hovered { has_conflict: true },
            DisplayPointStatus::Occupied,
            DisplayPointStatus::Hovered {
                has_conflict: false
            },
            DisplayPointStatus::Unoccupied,
        ]
    );
}

#[test]
fn full_lines_show_as_blast() {
    // bottom row fully occupied; hovering block completes the left column
    let occ = vec![true, true, false, false];
    let block = vec![(0, 0)];
    let grid = display_grid(&occ, 2, 2, &block, 0, 1);
    assert_eq!(
        grid,
        vec![
            DisplayPointStatus::Blast,
            DisplayPointStatus::Blast,
            DisplayPointStatus::Blast,
            DisplayPointStatus::Unoccupied,
        ]
    );
}

#[test]
fn occupied_cells_show_without_a_block() {
    let occ = vec![true, false, false, true];
    let grid = display_grid(&occ, 2, 2, &vec![], 0, 0);
    assert_eq!(
        grid,
        vec![
            DisplayPointStatus::Occupied,
            DisplayPointStatus::Unoccupied,
            DisplayPointStatus::Unoccupied,
            DisplayPointStatus::Occupied,
        ]
    );
}
