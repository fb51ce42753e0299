use zensally::anchors::{blazeface_anchor_params, generate_anchors, generate_mediapipe_anchors, Anchor, AnchorParams};

#[test]
fn anchor_count_320x320() {
    let anchors = generate_anchors(&blazeface_anchor_params(), (320, 320));
    // stride 8: 40*40*2 = 3200, stride 16: 20*20*6 = 2400, total = 5600
    assert_eq!(anchors.len(), 5600);
}

#[test]
fn first_anchor_position() {
    let anchors = generate_anchors(&blazeface_anchor_params(), (320, 320));
    let a = &anchors[0];
    // First anchor: col=0, row=0, step=8, min_size=8
    let cx = (a.col as f32 + 0.5) * a.step as f32 / 320.0;
    let cy = (a.row as f32 + 0.5) * a.step as f32 / 320.0;
    let w = a.min_size as f32 / 320.0;
    let expected_cx = 0.5 * 8.0 / 320.0;
    let expected_cy = 0.5 * 8.0 / 320.0;
    assert!((cx - expected_cx).abs() < 1e-6);
    assert!((cy - expected_cy).abs() < 1e-6);
    assert!((w - 8.0 / 320.0).abs() < 1e-6);
}

#[test]
fn anchor_count() {
    let anchors = generate_mediapipe_anchors(128, &vec![8, 16, 16, 16]);
    // stride 8: 16x16 * 2 = 512
    // stride 16: 8x8 * 2 = 128 (x3 layers) = 384
    // total = 896
    assert_eq!(anchors.len(), 896);
}

#[test]
fn anchors_ordered_rows_then_columns_then_sizes() {
    let anchors = generate_anchors(&blazeface_anchor_params(), (320, 320));
    assert_eq!(anchors[0], Anchor { col: 0, row: 0, step: 8, min_size: 8 });
    assert_eq!(anchors[1], Anchor { col: 0, row: 0, step: 8, min_size: 11 });
    assert_eq!(anchors[2], Anchor { col: 1, row: 0, step: 8, min_size: 8 });
    // second row starts after 40 cells of 2 anchors
    assert_eq!(anchors[80], Anchor { col: 0, row: 1, step: 8, min_size: 8 });
    // second level starts after 3200 anchors
    assert_eq!(anchors[3200], Anchor { col: 0, row: 0, step: 16, min_size: 14 });
    assert_eq!(anchors[3205], Anchor { col: 0, row: 0, step: 16, min_size: 149 });
    assert_eq!(anchors[5599], Anchor { col: 19, row: 19, step: 16, min_size: 149 });
}

#[test]
fn anchors_non_square_input() {
    let params = AnchorParams { min_sizes: vec![vec![4]], steps: vec![10] };
    let anchors = generate_anchors(&params, (35, 21));
    // 3 columns, 2 rows
    assert_eq!(anchors.len(), 6);
    assert_eq!(anchors[5], Anchor { col: 2, row: 1, step: 10, min_size: 4 });
}

#[test]
fn anchors_extra_levels_ignored() {
    let params = AnchorParams { min_sizes: vec![vec![1, 2]], steps: vec![8, 16] };
    let anchors = generate_anchors(&params, (16, 16));
    assert_eq!(anchors.len(), 8);
    assert!(anchors.iter().all(|a| a.step == 8));
}

#[test]
fn mediapipe_anchors_pair_per_cell() {
    let anchors = generate_mediapipe_anchors(128, &vec![8, 16, 16, 16]);
    assert_eq!(anchors[0], anchors[1]);
    assert_eq!(anchors[0], Anchor { col: 0, row: 0, step: 8, min_size: 1 });
    assert_eq!(anchors[512], Anchor { col: 0, row: 0, step: 16, min_size: 1 });
    assert_eq!(anchors[895], Anchor { col: 7, row: 7, step: 16, min_size: 1 });
}
