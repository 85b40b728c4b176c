//! A scene body: a geometry, a material and a placement, composed.

use vstd::prelude::*;

use std::sync::Arc;

use crate::mat4::Mat4;
use crate::mat4::Mat4Cached;
use crate::material::Material;
use crate::scene::Object;

verus! {

/// One placed, shaded thing in the scene.
#[derive(Debug)]
pub struct Sprite {
    pub geometry: Option<Arc<Object>>,
    pub material: Option<Arc<Material>>,
    pub transform: Mat4Cached,
}

/// A sprite under construction.
pub struct SpriteBuilder {
    pub sprite: Sprite,
}

impl SpriteBuilder {
    pub fn build(self) -> (r: Sprite)
        ensures
            r == self.sprite,
    {
        self.sprite
    }

    pub fn geometry(self, geometry: Arc<Object>) -> (r: SpriteBuilder)
        ensures
            r.sprite.geometry == Some(geometry),
            r.sprite.material == self.sprite.material,
            r.sprite.transform == self.sprite.transform,
    {
        SpriteBuilder {
            sprite: Sprite { geometry: Some(geometry), ..self.sprite },
        }
    }

    pub fn material(self, material: Arc<Material>) -> (r: SpriteBuilder)
        ensures
            r.sprite.material == Some(material),
            r.sprite.geometry == self.sprite.geometry,
            r.sprite.transform == self.sprite.transform,
    {
        SpriteBuilder {
            sprite: Sprite { material: Some(material), ..self.sprite },
        }
    }

    pub fn transform(self, transform: Mat4) -> (r: SpriteBuilder)
        ensures
            r.sprite.transform.origin_spec() == transform,
            r.sprite.transform.cached_wf(),
            r.sprite.geometry == self.sprite.geometry,
            r.sprite.material == self.sprite.material,
    {
        SpriteBuilder {
            sprite: Sprite { transform: Mat4Cached::new(transform), ..self.sprite },
        }
    }
}

impl Sprite {
    /// An empty sprite under the identity placement, to be filled in.
    pub fn builder() -> (r: SpriteBuilder)
        ensures
            r.sprite.geometry is None,
            r.sprite.material is None,
            r.sprite.transform.cached_wf(),
    {
        SpriteBuilder {
            sprite: Sprite {
                geometry: None,
                material: None,
                transform: Mat4Cached::new(Mat4::identity()),
            },
        }
    }

    /// A sprite from its parts, under the identity placement.
    pub fn new(geometry: Option<Arc<Object>>, material: Option<Arc<Material>>) -> (r: Sprite)
        ensures
            r.geometry == geometry,
            r.material == material,
            r.transform.cached_wf(),
    {
        Sprite { geometry, material, transform: Mat4Cached::new(Mat4::identity()) }
    }

    pub fn geometry(&self) -> (r: &Option<Arc<Object>>)
        ensures
            *r == self.geometry,
    {
        &self.geometry
    }

    pub fn material(&self) -> (r: &Option<Arc<Material>>)
        ensures
            *r == self.material,
    {
        &self.material
    }

    pub fn transform(&self) -> (r: &Mat4Cached)
        ensures
            *r == self.transform,
    {
        &self.transform
    }
}

} // verus!
