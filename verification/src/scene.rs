//! The scene and the decisions of the shader: which surface a ray meets
//! first, and what kind of colour it gets there.
//!
//! Geometry and colour arithmetic are the caller's. What arrives here are
//! the facts that the decisions rest on: for each primitive whether the ray
//! hits it and how far away, ordered as unsigned integers.

use vstd::prelude::*;

verus! {

/// What a primitive of the scene is to the shader.
#[derive(PartialEq, Eq, Structural, Debug, Copy, Clone)]
pub enum Kind {
    Object,
    Light,
}

/// The side of a surface that a ray meets.
#[derive(PartialEq, Eq, Structural, Debug, Copy, Clone)]
pub enum Face {
    Front,
    Back,
}

/// The variant of a material, without its parameters.
#[derive(PartialEq, Eq, Structural, Debug, Copy, Clone)]
pub enum MaterialKind {
    Metal,
    Lambertian,
    Dielectric,
}

/// A primitive of the scene: its material, its shape, and whether it is an
/// object or a light.
#[derive(Clone)]
pub struct Object<G, M> {
    pub mat: M,
    pub geometry: G,
    pub kind: Kind,
}

/// The primitives of an image, objects and lights apart, so that the shader
/// can walk the lights alone when it samples shadows.
pub struct Scene<G, M> {
    width: u64,
    height: u64,
    objects: Vec<Object<G, M>>,
    lights: Vec<Object<G, M>>,
}

impl<G, M> Scene<G, M> {
    /// Every primitive stands in the list of its kind.
    pub closed spec fn wf(&self) -> bool {
        &&& forall|i: int|
            0 <= i < self.objects@.len() ==> (#[trigger] self.objects@[i]).kind == Kind::Object
        &&& forall|i: int|
            0 <= i < self.lights@.len() ==> (#[trigger] self.lights@[i]).kind == Kind::Light
    }

    pub closed spec fn spec_width(&self) -> u64 {
        self.width
    }

    pub closed spec fn spec_height(&self) -> u64 {
        self.height
    }

    pub closed spec fn spec_objects(&self) -> Seq<Object<G, M>> {
        self.objects@
    }

    pub closed spec fn spec_lights(&self) -> Seq<Object<G, M>> {
        self.lights@
    }

    /// In a well-formed scene the kind of a primitive says which list holds
    /// it.
    pub proof fn lemma_kinds(&self)
        requires
            self.wf(),
        ensures
            forall|i: int|
                0 <= i < self.spec_objects().len() ==> (#[trigger] self.spec_objects()[i]).kind
                    == Kind::Object,
            forall|i: int|
                0 <= i < self.spec_lights().len() ==> (#[trigger] self.spec_lights()[i]).kind
                    == Kind::Light,
    {
    }

    /// An empty scene for an image of `width` by `height` pixels.
    pub fn new(width: u64, height: u64) -> (s: Scene<G, M>)
        ensures
            s.wf(),
            s.spec_width() == width,
            s.spec_height() == height,
            s.spec_objects() == Seq::<Object<G, M>>::empty(),
            s.spec_lights() == Seq::<Object<G, M>>::empty(),
    {
        Scene { width, height, objects: Vec::new(), lights: Vec::new() }
    }

    /// Adds an object behind the objects that are there.
    pub fn add_object(&mut self, g: G, m: M)
        requires
            old(self).wf(),
        ensures
            final(self).wf(),
            final(self).spec_width() == old(self).spec_width(),
            final(self).spec_height() == old(self).spec_height(),
            final(self).spec_lights() == old(self).spec_lights(),
            final(self).spec_objects() == old(self).spec_objects().push(
                Object { mat: m, geometry: g, kind: Kind::Object },
            ),
    {
        self.objects.push(Object { kind: Kind::Object, mat: m, geometry: g });
    }

    /// Adds a light behind the lights that are there.
    pub fn add_light(&mut self, g: G, m: M)
        requires
            old(self).wf(),
        ensures
            final(self).wf(),
            final(self).spec_width() == old(self).spec_width(),
            final(self).spec_height() == old(self).spec_height(),
            final(self).spec_objects() == old(self).spec_objects(),
            final(self).spec_lights() == old(self).spec_lights().push(
                Object { mat: m, geometry: g, kind: Kind::Light },
            ),
    {
        self.lights.push(Object { kind: Kind::Light, mat: m, geometry: g });
    }

    pub fn lights(&self) -> (l: &Vec<Object<G, M>>)
        ensures
            l@ == self.spec_lights(),
    {
        &self.lights
    }

    pub fn objects(&self) -> (o: &Vec<Object<G, M>>)
        ensures
            o@ == self.spec_objects(),
    {
        &self.objects
    }

    pub fn width(&self) -> (w: u64)
        ensures
            w == self.spec_width(),
    {
        self.width
    }

    pub fn height(&self) -> (h: u64)
        ensures
            h == self.spec_height(),
    {
        self.height
    }
}

/// The primitive that a ray meets first: its kind and its place in the list
/// of that kind.
#[derive(PartialEq, Eq, Structural, Debug, Copy, Clone)]
pub struct Closest {
    pub kind: Kind,
    pub index: usize,
}

/// Entry `i` of `hits` is the nearest hit: it is a hit, no hit is closer, and
/// of the hits as close as it none comes earlier in the list.
pub open spec fn is_nearest(hits: Seq<Option<u64>>, i: int) -> bool {
    &&& 0 <= i < hits.len()
    &&& hits[i] is Some
    &&& forall|j: int|
        0 <= j < hits.len() && (#[trigger] hits[j]) is Some ==> if j < i {
            hits[i]->0 < hits[j]->0
        } else {
            hits[i]->0 <= hits[j]->0
        }
}

/// No entry of `hits` is a hit.
pub open spec fn no_hit(hits: Seq<Option<u64>>) -> bool {
    forall|j: int| 0 <= j < hits.len() ==> (#[trigger] hits[j]) is None
}

/// At most one entry is the nearest hit, and there is one only where
/// something is hit.
pub proof fn lemma_nearest_is_unique(hits: Seq<Option<u64>>, i: int, j: int)
    requires
        is_nearest(hits, i),
    ensures
        is_nearest(hits, j) ==> i == j,
        !no_hit(hits),
{
}

/// Finds the primitive that a ray meets first. `objects[i]` and `lights[i]`
/// say whether the ray hits the i-th object or light, and at what distance
/// from its origin. Objects are looked at before lights, and of two hits at
/// the same distance the earlier wins. There is no result exactly when the
/// ray hits nothing.
pub fn collide(objects: &Vec<Option<u64>>, lights: &Vec<Option<u64>>) -> (r: Option<Closest>)
    ensures
        r is None <==> no_hit(objects@ + lights@),
        match r {
            Some(c) => match c.kind {
                Kind::Object => c.index < objects@.len() && is_nearest(
                    objects@ + lights@,
                    c.index as int,
                ),
                Kind::Light => c.index < lights@.len() && is_nearest(
                    objects@ + lights@,
                    objects@.len() + c.index,
                ),
            },
            None => no_hit(objects@ + lights@),
        },
{
    let ghost all = objects@ + lights@;
    let ghost mut best: int = -1;
    let mut closest: Option<Closest> = None;
    let mut closest_distance: u64 = 0;

    let mut i: usize = 0;
    while i < objects.len()
        invariant
            i <= objects@.len(),
            all == objects@ + lights@,
            scanned(all, i as int, best, closest_distance),
            closest is Some <==> best >= 0,
            closest matches Some(c) ==> c.kind == Kind::Object && c.index == best,
        decreases objects.len() - i,
    {
        match objects[i] {
            None => {},
            Some(distance) => {
                if closest.is_none() || distance < closest_distance {
                    closest = Some(Closest { kind: Kind::Object, index: i });
                    closest_distance = distance;
                    proof {
                        best = i as int;
                    }
                }
            },
        }
        i += 1;
    }

    let mut k: usize = 0;
    while k < lights.len()
        invariant
            k <= lights@.len(),
            all == objects@ + lights@,
            scanned(all, objects@.len() + k, best, closest_distance),
            closest is Some <==> best >= 0,
            closest matches Some(c) ==> match c.kind {
                Kind::Object => c.index == best && best < objects@.len(),
                Kind::Light => objects@.len() + c.index == best && c.index < lights@.len(),
            },
        decreases lights.len() - k,
    {
        match lights[k] {
            None => {},
            Some(distance) => {
                if closest.is_none() || distance < closest_distance {
                    closest = Some(Closest { kind: Kind::Light, index: k });
                    closest_distance = distance;
                    proof {
                        best = objects@.len() + k;
                    }
                }
            },
        }
        k += 1;
    }
    assert(all.take(all.len() as int) =~= all);
    closest
}

/// What the scan knows after the first `upto` entries: `best` is the nearest
/// hit among them and lies at `distance`, or, where `best` is negative, none
/// of them is a hit.
spec fn scanned(hits: Seq<Option<u64>>, upto: int, best: int, distance: u64) -> bool {
    &&& 0 <= upto <= hits.len()
    &&& -1 <= best < upto
    &&& if best < 0 {
        no_hit(hits.take(upto))
    } else {
        hits[best] == Some(distance) && is_nearest(hits.take(upto), best)
    }
}

/// What the shader does with a ray.
#[derive(PartialEq, Eq, Structural, Debug, Copy, Clone)]
pub enum Shade {
    /// The ray has no depth left: black.
    Exhausted,
    /// The ray leaves the scene: the ambient background.
    Background,
    /// The ray ends on a light: white, whatever the light's colour.
    Emissive,
    /// A surface that shows nothing but the light reaching it, in a scene
    /// without lights: black.
    Unlit,
    /// A diffuse surface: its colour, scaled by the light that reaches it and
    /// by its albedo.
    Diffuse,
    /// Metal met at a grazing angle: its colour scaled by the light that
    /// reaches it, and nothing of a reflection.
    Grazing,
    /// Metal: the colour of the reflected ray, which is shaded with `depth`
    /// left, and, where `lit`, the diffuse term, both scaled by the albedo.
    Reflect { depth: i16, lit: bool },
}

/// A dielectric surface took part in shading: that material is reserved.
#[derive(PartialEq, Eq, Structural, Debug, Copy, Clone)]
pub struct UnimplementedMaterial;

/// What `ray_color` decides.
pub open spec fn shade_of(
    depth: i16,
    hit: Option<(Kind, MaterialKind)>,
    grazing: bool,
    lights: usize,
) -> Result<Shade, UnimplementedMaterial> {
    if depth <= 0 {
        Ok(Shade::Exhausted)
    } else {
        match hit {
            None => Ok(Shade::Background),
            Some((Kind::Light, _)) => Ok(Shade::Emissive),
            Some((Kind::Object, MaterialKind::Lambertian)) => if lights == 0 {
                Ok(Shade::Unlit)
            } else {
                Ok(Shade::Diffuse)
            },
            Some((Kind::Object, MaterialKind::Metal)) => if !grazing {
                Ok(Shade::Reflect { depth: (depth - 1) as i16, lit: lights > 0 })
            } else if lights == 0 {
                Ok(Shade::Unlit)
            } else {
                Ok(Shade::Grazing)
            },
            Some((Kind::Object, MaterialKind::Dielectric)) => Err(UnimplementedMaterial),
        }
    }
}

/// Decides how a ray with `depth` bounces left is shaded. `hit` is the
/// primitive that the ray meets first, if any, with its kind and material;
/// `grazing` says whether the ray meets the surface at a grazing angle, which
/// only metal asks for; `lights` is the number of lights in the scene: the
/// mean of the light that no light sends is nothing.
pub fn ray_color(
    depth: i16,
    hit: Option<(Kind, MaterialKind)>,
    grazing: bool,
    lights: usize,
) -> (r: Result<Shade, UnimplementedMaterial>)
    ensures
        r == shade_of(depth, hit, grazing, lights),
        depth <= 0 ==> r == Ok::<Shade, UnimplementedMaterial>(Shade::Exhausted),
        r matches Ok(Shade::Reflect { depth: next, lit }) ==> 0 <= next < depth,
{
    if depth <= 0 {
        return Ok(Shade::Exhausted);
    }
    match hit {
        None => Ok(Shade::Background),
        Some((kind, material)) => match kind {
            Kind::Light => Ok(Shade::Emissive),
            Kind::Object => match material {
                MaterialKind::Lambertian => {
                    if lights == 0 {
                        Ok(Shade::Unlit)
                    } else {
                        Ok(Shade::Diffuse)
                    }
                },
                MaterialKind::Metal => {
                    if !grazing {
                        Ok(Shade::Reflect { depth: depth - 1, lit: lights > 0 })
                    } else if lights == 0 {
                        Ok(Shade::Unlit)
                    } else {
                        Ok(Shade::Grazing)
                    }
                },
                MaterialKind::Dielectric => Err(UnimplementedMaterial),
            },
        },
    }
}

} // verus!
