use raytracer::scene::{
    collide, ray_color, Closest, Kind, MaterialKind, Scene, Shade, UnimplementedMaterial,
};

#[test]
fn test_scene_keeps_lists_apart() {
    let mut s: Scene<u32, &str> = Scene::new(640, 480);
    assert_eq!((s.width(), s.height()), (640, 480));
    assert!(s.objects().is_empty() && s.lights().is_empty());
    s.add_object(1, "red");
    s.add_light(2, "lamp");
    s.add_object(3, "blue");
    assert_eq!(s.objects().len(), 2);
    assert_eq!(s.lights().len(), 1);
    assert_eq!(s.objects()[1].geometry, 3);
    assert_eq!(s.objects()[1].mat, "blue");
    assert!(s.objects().iter().all(|o| o.kind == Kind::Object));
    assert!(s.lights().iter().all(|o| o.kind == Kind::Light));
}

#[test]
fn test_collide_nothing_hit() {
    assert_eq!(collide(&vec![], &vec![]), None);
    assert_eq!(collide(&vec![None, None], &vec![None]), None);
}

#[test]
fn test_collide_picks_nearest() {
    let r = collide(&vec![Some(50), Some(20), None], &vec![Some(30)]);
    assert_eq!(r, Some(Closest { kind: Kind::Object, index: 1 }));
    let r = collide(&vec![Some(50), Some(20), None], &vec![Some(30), Some(10)]);
    assert_eq!(r, Some(Closest { kind: Kind::Light, index: 1 }));
}

#[test]
fn test_collide_first_wins_on_ties() {
    let r = collide(&vec![Some(7), Some(7)], &vec![Some(7)]);
    assert_eq!(r, Some(Closest { kind: Kind::Object, index: 0 }));
    let r = collide(&vec![None], &vec![Some(7), Some(7)]);
    assert_eq!(r, Some(Closest { kind: Kind::Light, index: 0 }));
}

#[test]
fn test_collide_counts_every_hit_however_far() {
    assert_eq!(
        collide(&vec![Some(u64::MAX)], &vec![]),
        Some(Closest { kind: Kind::Object, index: 0 })
    );
    assert_eq!(
        collide(&vec![None], &vec![None, Some(u64::MAX)]),
        Some(Closest { kind: Kind::Light, index: 1 })
    );
    assert_eq!(
        collide(&vec![Some(u64::MAX), Some(0)], &vec![Some(u64::MAX)]),
        Some(Closest { kind: Kind::Object, index: 1 })
    );
}

const LAMBERTIAN: Option<(Kind, MaterialKind)> = Some((Kind::Object, MaterialKind::Lambertian));
const METAL: Option<(Kind, MaterialKind)> = Some((Kind::Object, MaterialKind::Metal));
const DIELECTRIC: Option<(Kind, MaterialKind)> = Some((Kind::Object, MaterialKind::Dielectric));

#[test]
fn test_ray_color_without_depth_is_black() {
    for depth in [0i16, -1, i16::MIN] {
        for hit in [None, Some((Kind::Light, MaterialKind::Metal)), LAMBERTIAN, METAL, DIELECTRIC] {
            for lights in [0, 1, 5] {
                assert_eq!(ray_color(depth, hit, false, lights), Ok(Shade::Exhausted));
                assert_eq!(ray_color(depth, hit, true, lights), Ok(Shade::Exhausted));
            }
        }
    }
}

#[test]
fn test_ray_color_empty_scene_is_background() {
    assert_eq!(ray_color(100, None, false, 0), Ok(Shade::Background));
    assert_eq!(ray_color(100, None, true, 3), Ok(Shade::Background));
}

#[test]
fn test_ray_color_light_is_white() {
    let light = Some((Kind::Light, MaterialKind::Lambertian));
    assert_eq!(ray_color(100, light, false, 1), Ok(Shade::Emissive));
    assert_eq!(ray_color(1, Some((Kind::Light, MaterialKind::Dielectric)), true, 1), Ok(Shade::Emissive));
}

#[test]
fn test_ray_color_lambertian_without_light_is_unlit() {
    assert_eq!(ray_color(100, LAMBERTIAN, false, 0), Ok(Shade::Unlit));
    assert_eq!(ray_color(100, LAMBERTIAN, true, 0), Ok(Shade::Unlit));
}

#[test]
fn test_ray_color_lambertian_is_diffuse() {
    assert_eq!(ray_color(100, LAMBERTIAN, false, 1), Ok(Shade::Diffuse));
    assert_eq!(ray_color(100, LAMBERTIAN, true, 2), Ok(Shade::Diffuse));
}

#[test]
fn test_ray_color_metal_grazing_has_no_reflection() {
    assert_eq!(ray_color(100, METAL, true, 1), Ok(Shade::Grazing));
    assert_eq!(ray_color(100, METAL, true, 0), Ok(Shade::Unlit));
}

#[test]
fn test_ray_color_metal_reflects_one_level_down() {
    assert_eq!(ray_color(100, METAL, false, 2), Ok(Shade::Reflect { depth: 99, lit: true }));
    assert_eq!(ray_color(1, METAL, false, 0), Ok(Shade::Reflect { depth: 0, lit: false }));
}

#[test]
fn test_ray_color_dielectric_is_unimplemented() {
    assert_eq!(ray_color(100, DIELECTRIC, false, 1), Err(UnimplementedMaterial));
    assert_eq!(ray_color(100, DIELECTRIC, true, 0), Err(UnimplementedMaterial));
}
