use vloom::frame::{Bitmap, FrameError};
use vloom::header::{FrameHeader, VERSION};
use vloom::layout::Layout;
use vloom::markers::Integral;
use vloom::pattern::{calib_black, level_gray, nearest_level};
use vloom::tracking::{RxTrack, ScanTry};
use vloom::scan::{
    acquire_candidates, check_scanned_header, corner_cells, forced_layout, known_cells,
    quarter_turns, scan_candidates, strip_cells, GrayImage,
};

#[test]
fn gray_image_reads_row_by_row() {
    let data = [10u8, 20, 30, 40, 50, 60];
    let img = GrayImage { w: 3, h: 2, data: &data };
    assert_eq!(img.get(0, 0), 10);
    assert_eq!(img.get(2, 0), 30);
    assert_eq!(img.get(1, 1), 50);
}

#[test]
fn corner_cells_of_the_default_grid() {
    let cells = corner_cells(Layout::v0());
    assert_eq!(cells.len(), 144);
    assert_eq!(cells[0], (0, 0, true));
    assert_eq!(cells[36], (0, 94, true));
    assert_eq!(cells[43], (1, 95, false));
    assert_eq!(cells[72], (86, 0, true));
    assert_eq!(cells[108], (86, 94, true));
    assert_eq!(cells[115], (87, 95, true));
    assert_eq!(cells[116], (87, 96, false));
}

#[test]
fn known_cells_of_the_default_grid() {
    let cells = known_cells(Layout::v0());
    assert_eq!(cells.len(), 760);
    assert_eq!(&cells[..144], corner_cells(Layout::v0()).as_slice());
    assert_eq!(cells[144], (0, 6, false));
    assert_eq!(cells[145], (0, 7, true));
    assert_eq!(cells[232], (86, 6, true));
    assert_eq!(cells[759], (91, 93, true));
    assert_eq!(calib_black(5, 5), false);
}

#[test]
fn strip_cells_of_the_default_grid() {
    let cells = strip_cells(Layout::v0());
    assert_eq!(cells.len(), 1200);
    assert_eq!(cells[0], (0, 0));
    assert_eq!(cells[599], (5, 99));
    assert_eq!(cells[600], (86, 0));
    assert_eq!(cells[1199], (91, 99));
}

#[test]
fn scanned_header_must_match_the_grid() {
    let h = FrameHeader {
        version: VERSION,
        bits_per_cell: 1,
        layout: Layout::v0(),
        frame_seq: 3,
        oti: [0; 12],
    };
    assert_eq!(check_scanned_header(h.clone(), Layout::v0()), Ok(h.clone()));
    assert_eq!(check_scanned_header(h.clone(), Layout::v1_dense()), Err(FrameError::LayoutMismatch));
    let mut deep = h.clone();
    deep.bits_per_cell = 3;
    assert_eq!(check_scanned_header(deep, Layout::v0()), Err(FrameError::LayoutMismatch));
}

#[test]
fn layouts_a_receiver_tries() {
    let v0 = Layout::v0();
    let v1 = Layout::v1_dense();
    let v2 = Layout::v2_ultra();
    let v3 = Layout::v3_max();
    assert_eq!(forced_layout(0, 5), None);
    assert_eq!(forced_layout(5, 0), None);
    assert_eq!(forced_layout(5, 4), Some(v0));
    assert_eq!(scan_candidates(None), vec![v1, v0, v2, v3]);
    assert_eq!(scan_candidates(Some(v2)), vec![v2]);
    assert_eq!(acquire_candidates(None), vec![v1, v0, v2, v3]);
    assert_eq!(acquire_candidates(Some(v0)), vec![v0, v1, v2, v3]);
    let odd = Layout::from_grid(7, 7);
    assert_eq!(acquire_candidates(Some(odd)), vec![odd, v1, v0, v2, v3]);
}

#[test]
fn quarter_turns_start_at_the_reported_rotation() {
    assert_eq!(quarter_turns(0), [0, 90, 180, 270]);
    assert_eq!(quarter_turns(270), [270, 0, 90, 180]);
    assert_eq!(quarter_turns(725), [5, 95, 185, 275]);
    assert_eq!(quarter_turns(u32::MAX), [255, 345, 75, 165]);
}

#[test]
fn integral_image_of_a_shrunk_plane() {
    // Pixel (x, y) = x + 10 y on 9 x 9: the shrink keeps 2 x 2 boxes.
    let mut data = Vec::new();
    for y in 0..9u8 {
        for x in 0..9u8 {
            data.push(x + 10 * y);
        }
    }
    let img = GrayImage { w: 9, h: 9, data: &data };
    let ig = Integral::build(&img);
    assert_eq!((ig.width(), ig.height()), (2, 2));
    // Box sums 264, 328, 904, 968 shrink to 16, 20, 56, 60.
    assert_eq!(ig.box_sum(0, 0, 1, 1), Some(16));
    assert_eq!(ig.box_sum(1, 0, 2, 1), Some(20));
    assert_eq!(ig.box_sum(0, 1, 1, 2), Some(56));
    assert_eq!(ig.box_sum(0, 0, 2, 2), Some(152));
    assert_eq!(ig.box_sum(1, 0, 2, 2), Some(80));
    assert_eq!(ig.box_sum(0, 0, 3, 1), None);
    assert_eq!(ig.box_sum(1, 1, 1, 2), None);
    assert_eq!(ig.box_sum(-1, 0, 1, 1), None);
}

#[test]
fn cells_painted_and_sampled() {
    let mut bm = Bitmap::new_white(6, 4);
    bm.fill_cell(2, 1, 2, true);
    for y in 0..4 {
        for x in 0..6 {
            let want = if x >= 4 && y >= 2 { 0 } else { 255 };
            assert_eq!(bm.get(x, y), want);
        }
    }
    assert_eq!(bm.sample_cell_value(2, 1, 2), 0);
    assert!(bm.sample_cell(2, 1, 2));
    assert!(!bm.sample_cell(2, 0, 0));
    bm.fill_cell_gray(2, 0, 1, 85);
    assert_eq!(bm.get(2, 0), 85);
    assert_eq!(bm.get(3, 1), 85);
    assert_eq!(bm.get(4, 1), 255);
    assert_eq!(bm.sample_cell_value(2, 0, 1), 85);
}

#[test]
fn gray_levels_read_back() {
    for level in 0..4u8 {
        assert_eq!(nearest_level(level_gray(level)), level);
    }
    assert_eq!(level_gray(5), 85);
    assert_eq!(nearest_level(42), 0);
    assert_eq!(nearest_level(43), 1);
    assert_eq!(nearest_level(128), 2);
    assert_eq!(nearest_level(213), 3);
}

#[test]
fn tracking_plans_follow_what_read() {
    let mut t = RxTrack::new();
    // Nothing read yet: every candidate grid at the camera's rotation.
    let plan = t.scan_plan(450);
    assert_eq!(
        plan,
        vec![
            ScanTry::Search(90, Layout::v1_dense()),
            ScanTry::Search(90, Layout::v0()),
            ScanTry::Search(90, Layout::v2_ultra()),
            ScanTry::Search(90, Layout::v3_max()),
        ]
    );
    // A search read: it is followed, then located and recalled, then the
    // search again.
    t.after_scan(Some(plan[1]));
    assert_eq!(t.following, Some((90, Layout::v0())));
    assert_eq!(t.last_ok, Some((90, Layout::v0())));
    let plan = t.scan_plan(0);
    assert_eq!(plan.len(), 7);
    assert_eq!(plan[0], ScanTry::Follow(90, Layout::v0()));
    assert_eq!(plan[1], ScanTry::Locate(90, Layout::v0()));
    assert_eq!(plan[2], ScanTry::Recall(90, Layout::v0()));
    assert_eq!(plan[3], ScanTry::Search(0, Layout::v1_dense()));
    // Nothing read: the following ends, the located and recalled grid stay first.
    t.after_scan(None);
    assert_eq!(t.following, None);
    assert_eq!(t.scan_plan(0)[0], ScanTry::Locate(90, Layout::v0()));
    assert_eq!(t.scan_plan(0)[1], ScanTry::Recall(90, Layout::v0()));
    // A recall that reads is followed but does not replace what last read.
    t.after_scan(Some(ScanTry::Recall(90, Layout::v0())));
    assert_eq!(t.following, Some((90, Layout::v0())));
    // A forced grid is the only one searched, and scanning keeps it.
    t.set_layout(3, 2);
    let plan = t.scan_plan(180);
    assert_eq!(plan.last(), Some(&ScanTry::Search(180, Layout::from_grid(3, 2))));
    assert_eq!(plan.len(), 4);
    // With nothing read yet, the fixed grid is located at the camera's rotation.
    let mut fresh = RxTrack::new();
    fresh.set_layout(3, 2);
    assert_eq!(
        fresh.scan_plan(90),
        vec![ScanTry::Locate(90, Layout::from_grid(3, 2)), ScanTry::Search(90, Layout::from_grid(3, 2))]
    );
    t.after_scan(None);
    assert_eq!(t.forced, Some(Layout::from_grid(3, 2)));
    t.set_layout(0, 5);
    assert_eq!(t.forced, None);
    // Seeding from a wide search follows and recalls the grid it found.
    t.seed(270, 7, 6);
    assert_eq!(t.following, Some((270, Layout::v1_dense())));
    assert_eq!(t.last_ok, Some((270, Layout::v1_dense())));
}
