use rtlib::camera::{render_size, to_uv, PlanePoint};

fn as_pair(p: PlanePoint) -> (f64, f64) {
    (p.u_num as f64 / p.den as f64, p.v_num as f64 / p.den as f64)
}

#[test]
fn center_left() {
    assert_eq!(as_pair(to_uv(0, 10, (30, 20))), (-1.5, 0.0));
}

#[test]
fn top_left() {
    assert_eq!(as_pair(to_uv(0, 0, (30, 20))), (-1.5, 1.0));
}

#[test]
fn top_left_over_two() {
    assert_eq!(as_pair(to_uv(10, 5, (40, 20))), (-1.0, 0.5))
}

#[test]
fn uv_exact_fractions() {
    assert_eq!(
        to_uv(0, 10, (30, 20)),
        PlanePoint { u_num: -30, v_num: 0, den: 20 }
    );
    assert_eq!(
        to_uv(30, 20, (30, 20)),
        PlanePoint { u_num: 30, v_num: -20, den: 20 }
    );
}

#[test]
fn uv_center_is_origin() {
    assert_eq!(as_pair(to_uv(320, 240, (640, 480))), (0.0, 0.0));
}

#[test]
fn uv_largest_image() {
    let p = to_uv(65535, 65535, (65535, 65535));
    assert_eq!(p, PlanePoint { u_num: 65535, v_num: -65535, den: 65535 });
}

#[test]
fn render_size_plain() {
    assert_eq!(render_size((30, 20), false), (30, 20));
}

#[test]
fn render_size_supersampled() {
    assert_eq!(render_size((30, 20), true), (60, 40));
}

#[test]
fn uv_supersample_grid() {
    let plain = to_uv(0, 10, (30, 20));
    let first = to_uv(0, 20, (60, 40));
    assert_eq!(first.u_num, 2 * plain.u_num);
    assert_eq!(first.v_num, 2 * plain.v_num);
    let last = to_uv(1, 21, (60, 40));
    assert_eq!(last.u_num, 2 * (plain.u_num + 1));
    assert_eq!(last.v_num, 2 * (plain.v_num - 1));
}
