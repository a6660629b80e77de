use raytracer::loader::{find_camera, item_type, material_kind, ItemType, LoadError};
use raytracer::scene::{Kind, MaterialKind};

#[test]
fn test_item_types() {
    assert_eq!(item_type("camera"), Ok(ItemType::Camera));
    assert_eq!(item_type("sphere"), Ok(ItemType::Sphere));
    assert_eq!(item_type("point_light"), Ok(ItemType::PointLight));
    assert_eq!(item_type("Sphere"), Err(LoadError::UnknownType));
    assert_eq!(item_type(""), Err(LoadError::UnknownType));
    assert_eq!(item_type("metal"), Err(LoadError::UnknownType));
}

#[test]
fn test_material_kinds() {
    assert_eq!(material_kind("lambertian"), Ok(MaterialKind::Lambertian));
    assert_eq!(material_kind("metal"), Ok(MaterialKind::Metal));
    assert_eq!(material_kind("dielectric"), Ok(MaterialKind::Dielectric));
    assert_eq!(material_kind("glass"), Err(LoadError::UnknownMaterial));
    assert_eq!(material_kind("sphere"), Err(LoadError::UnknownMaterial));
}

#[test]
fn test_kind_of_item() {
    assert_eq!(ItemType::Camera.kind(), None);
    assert_eq!(ItemType::Sphere.kind(), Some(Kind::Object));
    assert_eq!(ItemType::PointLight.kind(), Some(Kind::Light));
}

#[test]
fn test_find_camera() {
    let (camera, sphere, light) = (ItemType::Camera, ItemType::Sphere, ItemType::PointLight);
    assert_eq!(find_camera(&vec![sphere, camera, light]), Ok(1));
    assert_eq!(find_camera(&vec![camera]), Ok(0));
    assert_eq!(find_camera(&vec![]), Err(LoadError::NoCamera));
    assert_eq!(find_camera(&vec![sphere, light]), Err(LoadError::NoCamera));
    assert_eq!(find_camera(&vec![camera, sphere, camera]), Err(LoadError::SeveralCameras));
}
