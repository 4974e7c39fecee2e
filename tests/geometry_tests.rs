use canved::geometry::window_point_to_buffer_point;

#[test]
fn same_size_maps_identically() {
    assert_eq!(window_point_to_buffer_point(10, 20, 100, 50, 100, 50), (10, 20));
    assert_eq!(window_point_to_buffer_point(0, 0, 100, 50, 100, 50), (0, 0));
}

#[test]
fn center_maps_to_center_window_wider() {
    let (ww, wh, bw, bh) = (300, 100, 100, 100);
    let (x, y) = window_point_to_buffer_point(ww / 2, wh / 2, ww, wh, bw, bh);
    assert!((x - bw / 2).abs() <= 1);
    assert!((y - bh / 2).abs() <= 1);
    // bar of 100 on the left
    assert_eq!(window_point_to_buffer_point(100, 0, ww, wh, bw, bh), (0, 0));
    assert_eq!(window_point_to_buffer_point(50, 0, ww, wh, bw, bh), (-50, 0));
}

#[test]
fn center_maps_to_center_window_taller() {
    let (ww, wh, bw, bh) = (101, 401, 50, 60);
    let (x, y) = window_point_to_buffer_point(ww / 2, wh / 2, ww, wh, bw, bh);
    assert!((x - bw / 2).abs() <= 1);
    assert!((y - bh / 2).abs() <= 1);
}

#[test]
fn scaled_buffer_mapping() {
    // buffer shown at twice its size
    assert_eq!(window_point_to_buffer_point(41, 21, 200, 100, 100, 50), (20, 10));
}

#[test]
fn center_exact_when_buffer_larger_than_window() {
    assert_eq!(window_point_to_buffer_point(100, 50, 200, 100, 1001, 1000), (500, 500));
    assert_eq!(window_point_to_buffer_point(50, 100, 100, 200, 1000, 1001), (500, 500));
}
