use rtlib::raytrace::{cast_ray, illuminate, LightSourceKind, RayState, AMBIENT_MEDIUM};
use rtlib::scene::{default_size, default_steps};

#[test]
fn scene_defaults() {
    assert_eq!(default_size(), (640, 480));
    assert_eq!(default_steps(), 4);
}

#[test]
fn light_kind_point() {
    let kind = LightSourceKind::Point;
    let copy = kind;
    assert_eq!(format!("{:?}", copy), "Point");
    assert!(matches!(kind, LightSourceKind::Point));
}

#[test]
fn new_ray_in_ambient_medium() {
    let ray = RayState::new("primary", 4);
    assert_eq!(*ray.ray(), "primary");
    assert_eq!(ray.steps_left(), 4);
    assert_eq!(ray.current_medium(), Some(AMBIENT_MEDIUM));
}

#[test]
fn child_rays_spend_a_step() {
    let ray = RayState::new(0u8, 3);
    let child = ray.push(1);
    assert_eq!(*child.ray(), 1);
    assert_eq!(child.steps_left(), 2);
    assert_eq!(child.current_medium(), Some(AMBIENT_MEDIUM));
    assert_eq!(ray.steps_left(), 3);
}

#[test]
fn refract_and_back() {
    let ray = RayState::new(0u8, 3);
    let inside = ray.refract(1, 7);
    assert_eq!(inside.current_medium(), Some(7));
    assert_eq!(inside.steps_left(), 2);
    assert_eq!(ray.current_medium(), Some(AMBIENT_MEDIUM));
    let out = inside.unrefract(2);
    assert_eq!(out.current_medium(), Some(AMBIENT_MEDIUM));
    assert_eq!(out.steps_left(), 1);
    let gone = out.unrefract(3);
    assert_eq!(gone.current_medium(), None);
}

#[test]
fn cast_absorbed_without_query() {
    let ray = RayState::new(5u32, 0);
    let r = cast_ray(&ray, 0u32, 100, |_| -> Option<u32> { panic!("queried") }, |_, h| h);
    assert_eq!(r, 0);
}

#[test]
fn cast_escaped_gives_background() {
    let ray = RayState::new(5u32, 2);
    let r = cast_ray(&ray, 0u32, 100, |_| None::<u32>, |_, h| h);
    assert_eq!(r, 100);
}

#[test]
fn cast_hit_is_shaded() {
    let ray = RayState::new(5u32, 2);
    let r = cast_ray(&ray, 0u32, 100, |r| Some(*r * 2), |s, h| h + s.steps_left() as u32);
    assert_eq!(r, 12);
}

#[test]
fn cast_recursion_ends_within_budget() {
    fn trace(ray: &RayState<u32>) -> u32 {
        cast_ray(ray, 0, 1000, |r| Some(*r), |s, _| 1 + trace(&s.push(s.ray() + 1)))
    }
    assert_eq!(trace(&RayState::new(0, 4)), 4);
}

#[test]
fn illuminate_adds_visible_lights_in_order() {
    let lights = vec![1u32, 2, 3, 4];
    let r = illuminate(&lights, 100u32, |l| *l != 3, |c, l| c * 10 + *l);
    assert_eq!(r, 100124);
}

#[test]
fn illuminate_blocked_light_keeps_ambient() {
    let lights = vec![5u32];
    assert_eq!(illuminate(&lights, 7u32, |_| false, |c, l| c + *l), 7);
    assert_eq!(illuminate(&lights, 7u32, |_| true, |c, l| c + *l), 12);
}

#[test]
fn illuminate_without_lights() {
    let lights: Vec<u32> = Vec::new();
    assert_eq!(illuminate(&lights, 7u32, |_| true, |c, l| c + *l), 7);
}

#[test]
fn illuminate_blocked_light_removable() {
    let all = vec![1u32, 2, 3, 4];
    let without = vec![1u32, 2, 4];
    let visible = |l: &u32| *l != 3;
    let add = |c: u32, l: &u32| c * 10 + *l;
    assert_eq!(illuminate(&all, 5u32, visible, add), illuminate(&without, 5u32, visible, add));
}
