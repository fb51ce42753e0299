use zensally::outputs::find_output_index;

#[test]
fn find_output_first_match() {
    let labels = vec![
        (0usize, "cls_8".to_string()),
        (1, "obj_8".to_string()),
        (4, "bbox_8".to_string()),
        (7, "bbox_8".to_string()),
    ];
    assert_eq!(find_output_index(&labels, &"bbox_8".to_string()), Some(4));
    assert_eq!(find_output_index(&labels, &"cls_8".to_string()), Some(0));
}

#[test]
fn find_output_missing() {
    let labels = vec![(0usize, "cls_8".to_string())];
    assert_eq!(find_output_index(&labels, &"cls_16".to_string()), None);
    assert_eq!(find_output_index(&Vec::new(), &"cls_8".to_string()), None);
}
