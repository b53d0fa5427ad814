use rustyvim::error::Error;
use rustyvim::pane_manager::{PaneManager, SplitType, GRID_MAX};

const ROW_MAX: u8 = GRID_MAX;
const COL_MAX: u8 = GRID_MAX;

#[test]
fn vsplit_half() {
    let mut pane_manager = PaneManager::new();
    assert_eq!(pane_manager.num_base_panes(), 1);
    let left_pane = 0;
    let right_pane = pane_manager.vsplit(left_pane).unwrap();
    assert_eq!(pane_manager.num_base_panes(), 2);

    for pane in [left_pane, right_pane] {
        assert_eq!(pane_manager.pane(pane).unwrap().row0, 0);
        assert_eq!(pane_manager.pane(pane).unwrap().row1, ROW_MAX);
    }

    assert_eq!(pane_manager.pane(left_pane).unwrap().col0, 0);
    assert_eq!(pane_manager.pane(left_pane).unwrap().col1, COL_MAX / 2);
    assert_eq!(pane_manager.pane(right_pane).unwrap().col0, COL_MAX / 2);
    assert_eq!(pane_manager.pane(right_pane).unwrap().col1, COL_MAX);
}

#[test]
fn vsplit_thirds() {
    let mut pane_manager = PaneManager::new();
    assert_eq!(pane_manager.num_base_panes(), 1);
    let left_pane = 0;
    let mid_pane = pane_manager.vsplit(left_pane).unwrap();
    let right_pane = pane_manager.vsplit(mid_pane).unwrap();
    assert_eq!(pane_manager.num_base_panes(), 3);

    for pane in [left_pane, mid_pane, right_pane] {
        assert_eq!(pane_manager.pane(pane).unwrap().row0, 0);
        assert_eq!(pane_manager.pane(pane).unwrap().row1, ROW_MAX);
    }

    const LEFT_BOUNDARY: u8 = COL_MAX / 3 - 1; // -1 due to quantization error
    const RIGHT_BOUNDARY: u8 = (COL_MAX as usize * 2 / 3) as u8 - 1; // -1 due to quantization error

    assert_eq!(pane_manager.pane(left_pane).unwrap().col0, 0);
    assert_eq!(pane_manager.pane(left_pane).unwrap().col1, LEFT_BOUNDARY);
    assert_eq!(pane_manager.pane(mid_pane).unwrap().col0, LEFT_BOUNDARY);
    assert_eq!(pane_manager.pane(mid_pane).unwrap().col1, RIGHT_BOUNDARY);
    assert_eq!(pane_manager.pane(right_pane).unwrap().col0, RIGHT_BOUNDARY);
    assert_eq!(pane_manager.pane(right_pane).unwrap().col1, COL_MAX);
}

#[test]
fn split() {
    let mut pane_manager = PaneManager::new();
    assert_eq!(pane_manager.num_base_panes(), 1);
    let left_pane = 0;
    let mid_top_pane = pane_manager.vsplit(left_pane).unwrap();
    let right_pane = pane_manager.vsplit(mid_top_pane).unwrap();
    let mid_mid_pane = pane_manager.hsplit(mid_top_pane).unwrap();
    let mid_bottom_pane = pane_manager.hsplit(mid_mid_pane).unwrap();

    const LEFT_BOUNDARY: u8 = COL_MAX / 3 - 1; // -1 due to quantization error
    const RIGHT_BOUNDARY: u8 = (COL_MAX as usize * 2 / 3) as u8 - 1; // -1 due to quantization error
    const TOP_BOUNDARY: u8 = ROW_MAX / 3 - 1; // -1 due to quantization error
    const BOTTOM_BOUNDARY: u8 = (ROW_MAX as usize * 2 / 3) as u8 - 1; // -1 due to quantization error

    let p = |i: usize| pane_manager.pane(i).unwrap();

    assert_eq!(p(left_pane).row0, 0);
    assert_eq!(p(left_pane).col0, 0);
    assert_eq!(p(left_pane).row1, ROW_MAX);
    assert_eq!(p(left_pane).col1, LEFT_BOUNDARY);

    assert_eq!(p(mid_top_pane).row0, 0);
    assert_eq!(p(mid_top_pane).col0, LEFT_BOUNDARY);
    assert_eq!(p(mid_top_pane).row1, TOP_BOUNDARY);
    assert_eq!(p(mid_top_pane).col1, RIGHT_BOUNDARY);

    assert_eq!(p(mid_mid_pane).row0, TOP_BOUNDARY);
    assert_eq!(p(mid_mid_pane).col0, LEFT_BOUNDARY);
    assert_eq!(p(mid_mid_pane).row1, BOTTOM_BOUNDARY);
    assert_eq!(p(mid_mid_pane).col1, RIGHT_BOUNDARY);

    assert_eq!(p(mid_bottom_pane).row0, BOTTOM_BOUNDARY);
    assert_eq!(p(mid_bottom_pane).col0, LEFT_BOUNDARY);
    assert_eq!(p(mid_bottom_pane).row1, ROW_MAX);
    assert_eq!(p(mid_bottom_pane).col1, RIGHT_BOUNDARY);

    assert_eq!(p(right_pane).row0, 0);
    assert_eq!(p(right_pane).col0, RIGHT_BOUNDARY);
    assert_eq!(p(right_pane).row1, ROW_MAX);
    assert_eq!(p(right_pane).col1, COL_MAX);
}

#[test]
fn three_way_split_boundaries() {
    let mut panes = PaneManager::new();
    let second = panes.split(0, SplitType::Col).unwrap();
    assert_eq!(panes.pane(0).unwrap().col1, 127);
    let third = panes.split(second, SplitType::Col).unwrap();
    let mut bounds = Vec::new();
    for i in [0, second, third] {
        let p = panes.pane(i).unwrap();
        assert_eq!((p.row0, p.row1), (0, 255));
        bounds.push((p.col0, p.col1));
    }
    bounds.sort();
    assert_eq!(bounds[0].0, 0);
    assert_eq!(bounds[2].1, 255);
    assert_eq!(bounds[0].1, bounds[1].0);
    assert_eq!(bounds[1].1, bounds[2].0);
    assert!((bounds[0].1 as i32 - 85).abs() <= 1);
    assert!((bounds[1].1 as i32 - 170).abs() <= 1);
}

#[test]
fn split_errors() {
    let mut panes = PaneManager::new();
    assert_eq!(panes.vsplit(1), Err(Error::InvalidPaneId));
    assert_eq!(panes.hsplit(8), Err(Error::InvalidPaneId));
    for _ in 0..7 {
        panes.hsplit(0).unwrap();
    }
    assert_eq!(panes.num_base_panes(), 8);
    assert_eq!(panes.vsplit(0), Err(Error::PaneCapacityExceeded));
    assert_eq!(panes.vsplit(9), Err(Error::InvalidPaneId));
    assert_eq!(panes.num_base_panes(), 8);
    assert!(panes.pane(8).is_none());
}

#[test]
fn split_succeeds_with_a_free_slot() {
    let mut panes = PaneManager::new();
    let second = panes.hsplit(0).unwrap();
    assert_eq!(second, 1);
    let p0 = panes.pane(0).unwrap();
    let p1 = panes.pane(1).unwrap();
    assert_eq!((p0.row0, p0.row1, p0.col0, p0.col1), (0, 127, 0, 255));
    assert_eq!((p1.row0, p1.row1, p1.col0, p1.col1), (127, 255, 0, 255));
    assert_eq!(p1.buf_num, p0.buf_num);
}
