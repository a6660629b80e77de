//! The rules of the scene format that do not depend on numbers: which names
//! an entry and a material may carry, and how many cameras a scene has.

use crate::scene::{Kind, MaterialKind};
use vstd::prelude::*;

verus! {

/// What an entry of a scene file describes.
#[derive(PartialEq, Eq, Structural, Debug, Copy, Clone)]
pub enum ItemType {
    Camera,
    Sphere,
    PointLight,
}

/// Why a scene is refused.
#[derive(PartialEq, Eq, Structural, Debug, Copy, Clone)]
pub enum LoadError {
    /// An entry's `type` is none of `camera`, `sphere`, `point_light`.
    UnknownType,
    /// A material's `type` is none of `lambertian`, `metal`, `dielectric`.
    UnknownMaterial,
    /// The scene has no camera.
    NoCamera,
    /// The scene has more than one camera.
    SeveralCameras,
}

/// Whether two string slices hold the same characters.
fn same_text(a: &str, b: &str) -> (r: bool)
    ensures
        r == (a@ == b@),
{
    a.to_owned() == b.to_owned()
}

/// The entry type that a `type` field names.
pub open spec fn item_type_of(name: Seq<char>) -> Result<ItemType, LoadError> {
    if name == "camera"@ {
        Ok(ItemType::Camera)
    } else if name == "sphere"@ {
        Ok(ItemType::Sphere)
    } else if name == "point_light"@ {
        Ok(ItemType::PointLight)
    } else {
        Err(LoadError::UnknownType)
    }
}

/// The material that a material's `type` field names.
pub open spec fn material_kind_of(name: Seq<char>) -> Result<MaterialKind, LoadError> {
    if name == "lambertian"@ {
        Ok(MaterialKind::Lambertian)
    } else if name == "metal"@ {
        Ok(MaterialKind::Metal)
    } else if name == "dielectric"@ {
        Ok(MaterialKind::Dielectric)
    } else {
        Err(LoadError::UnknownMaterial)
    }
}

/// Reads the `type` field of an entry.
pub fn item_type(name: &str) -> (r: Result<ItemType, LoadError>)
    ensures
        r == item_type_of(name@),
{
    if same_text(name, "camera") {
        Ok(ItemType::Camera)
    } else if same_text(name, "sphere") {
        Ok(ItemType::Sphere)
    } else if same_text(name, "point_light") {
        Ok(ItemType::PointLight)
    } else {
        Err(LoadError::UnknownType)
    }
}

/// Reads the `type` field of a material.
pub fn material_kind(name: &str) -> (r: Result<MaterialKind, LoadError>)
    ensures
        r == material_kind_of(name@),
{
    if same_text(name, "lambertian") {
        Ok(MaterialKind::Lambertian)
    } else if same_text(name, "metal") {
        Ok(MaterialKind::Metal)
    } else if same_text(name, "dielectric") {
        Ok(MaterialKind::Dielectric)
    } else {
        Err(LoadError::UnknownMaterial)
    }
}

impl ItemType {
    /// What the entry is to the shader; a camera is no primitive.
    pub open spec fn spec_kind(self) -> Option<Kind> {
        match self {
            ItemType::Camera => None,
            ItemType::Sphere => Some(Kind::Object),
            ItemType::PointLight => Some(Kind::Light),
        }
    }

    #[verifier::when_used_as_spec(spec_kind)]
    pub fn kind(self) -> (k: Option<Kind>)
        ensures
            k == self.spec_kind(),
    {
        match self {
            ItemType::Camera => None,
            ItemType::Sphere => Some(Kind::Object),
            ItemType::PointLight => Some(Kind::Light),
        }
    }
}

/// How many of the first `upto` entries are cameras.
pub open spec fn cameras(items: Seq<ItemType>, upto: int) -> int
    decreases upto,
{
    if upto <= 0 {
        0
    } else {
        cameras(items, upto - 1) + if items[upto - 1] == ItemType::Camera {
            1int
        } else {
            0int
        }
    }
}

/// Finds the camera of a scene, which must have exactly one.
pub fn find_camera(items: &Vec<ItemType>) -> (r: Result<usize, LoadError>)
    ensures
        match r {
            Ok(at) => at < items@.len() && items@[at as int] == ItemType::Camera && cameras(
                items@,
                items@.len() as int,
            ) == 1,
            Err(e) => e == (if cameras(items@, items@.len() as int) == 0 {
                LoadError::NoCamera
            } else {
                LoadError::SeveralCameras
            }) && cameras(items@, items@.len() as int) != 1,
        },
{
    let mut found: Option<usize> = None;
    let mut i: usize = 0;
    while i < items.len()
        invariant
            i <= items@.len(),
            match found {
                Some(at) => at < i && items@[at as int] == ItemType::Camera && cameras(
                    items@,
                    i as int,
                ) == 1,
                None => cameras(items@, i as int) == 0,
            },
        decreases items.len() - i,
    {
        match items[i] {
            ItemType::Camera => {
                if found.is_some() {
                    proof {
                        lemma_cameras_grow(items@, i as int + 1, items@.len() as int);
                    }
                    return Err(LoadError::SeveralCameras);
                }
                found = Some(i);
            },
            _ => {},
        }
        i += 1;
    }
    match found {
        Some(at) => Ok(at),
        None => Err(LoadError::NoCamera),
    }
}

/// The count of cameras does not fall as more entries are looked at.
proof fn lemma_cameras_grow(items: Seq<ItemType>, a: int, b: int)
    requires
        a <= b,
    ensures
        cameras(items, a) <= cameras(items, b),
    decreases b - a,
{
    if a < b {
        lemma_cameras_grow(items, a, b - 1);
    }
}

} // verus!
