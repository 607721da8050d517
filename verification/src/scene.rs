//! What is to be drawn: the objects, and what lies behind them.

use vstd::prelude::*;
use crate::bvh::BvhNode;
use crate::hitable::{bounds, Hitable};
use crate::objects::object::{span, Object, SPAN_END_BITS};
use crate::scalar::Scalar;
use crate::vec::{Color3, Vec3};

verus! {

/// What a ray sees that hits nothing.
#[derive(Debug, PartialEq)]
pub enum Background {
    /// One colour everywhere.
    Color(Color3),
    /// A colour at the top that runs into another at the bottom.
    Gradient(Color3, Color3),
}

impl Background {
    /// The colour of the background. A single colour is given as it is; for
    /// a gradient `blend` is asked, with the colour at the top and the one at
    /// the bottom, for the colour at the height that it knows of.
    pub fn color<F: FnOnce(Color3, Color3) -> Color3>(&self, blend: F) -> (color: Color3)
        requires
            *self matches Background::Gradient(top, bottom) ==> call_requires(blend, (top, bottom)),
        ensures
            *self matches Background::Color(only) ==> color == only,
            *self matches Background::Gradient(top, bottom) ==> call_ensures(
                blend,
                (top, bottom),
                color,
            ),
    {
        match self {
            Background::Color(c) => *c,
            Background::Gradient(c1, c2) => blend(*c1, *c2),
        }
    }
}

impl Default for Background {
    /// Black everywhere.
    fn default() -> (background: Self)
        ensures
            background == Background::Color(Vec3::spec_zero()),
    {
        Background::Color(Color3::zero())
    }
}

/// A scene: a hierarchy over its objects, and a background.
#[derive(Debug)]
pub struct Scene<H: Hitable> {
    bvh: BvhNode<H>,
    background: Background,
}

impl<H: Hitable> Scene<H> {
    /// The hierarchy over the objects.
    pub closed spec fn spec_bvh(&self) -> BvhNode<H> {
        self.bvh
    }

    /// The background.
    pub closed spec fn spec_background(&self) -> Background {
        self.background
    }

    /// The hierarchy is in order, and holds on each of its nodes half of the
    /// objects on either side.
    pub open spec fn wf(&self) -> bool {
        self.spec_bvh().wf() && self.spec_bvh().median_split()
    }

    /// The scene of some objects before a background. The hierarchy holds
    /// the objects given, each as often as it was given.
    pub fn new(objects: Vec<Object<H>>, background: Background) -> (scene: Self)
        ensures
            scene.wf(),
            scene.spec_bvh().leaves().to_multiset() == objects@.to_multiset(),
            scene.spec_bvh().leaves().len() == objects@.len(),
            objects@.len() == 0 ==> scene.spec_bvh().bbox() is None,
            scene.spec_bvh().bbox() == bounds(objects@, span()),
            scene.spec_background() == background,
    {
        let bvh = if objects.len() == 0 {
            proof {
                assert(objects@ =~= Seq::empty());
            }
            BvhNode::default()
        } else {
            BvhNode::new(objects, (Scalar::from_bits(0), Scalar::from_bits(SPAN_END_BITS)))
        };
        Scene { bvh, background }
    }

    /// The hierarchy over the objects.
    pub fn bvh(&self) -> (bvh: &BvhNode<H>)
        ensures
            *bvh == self.spec_bvh(),
    {
        &self.bvh
    }

    /// The background.
    pub fn background(&self) -> (background: &Background)
        ensures
            *background == self.spec_background(),
    {
        &self.background
    }
}

impl<H: Hitable> Default for Scene<H> {
    /// The scene of nothing before black.
    fn default() -> (scene: Self)
        ensures
            scene.wf(),
            scene.spec_bvh().leaves().len() == 0,
            scene.spec_bvh().bbox() is None,
            scene.spec_background() == Background::Color(Vec3::spec_zero()),
    {
        Scene { bvh: BvhNode::default(), background: Background::default() }
    }
}

/// A scene in the making.
#[derive(Debug)]
pub struct SceneBuilder<H: Hitable> {
    objects: Vec<Object<H>>,
    background: Background,
}

impl<H: Hitable> SceneBuilder<H> {
    /// The objects added so far, in the order in which they came.
    pub closed spec fn objects(&self) -> Seq<Object<H>> {
        self.objects@
    }

    /// The background.
    pub closed spec fn background(&self) -> Background {
        self.background
    }

    /// The making of a scene before a background, with no object yet.
    pub fn new(background: Background) -> (builder: Self)
        ensures
            builder.objects() == Seq::<Object<H>>::empty(),
            builder.background() == background,
    {
        SceneBuilder { objects: Vec::new(), background }
    }

    /// With one more object.
    pub fn add_object(self, object: Object<H>) -> (builder: Self)
        ensures
            builder.objects() == self.objects().push(object),
            builder.background() == self.background(),
    {
        let mut builder = self;
        builder.objects.push(object);
        builder
    }

    /// With one more volume, as an object.
    pub fn add_sphere(self, sphere: H) -> (builder: Self)
        ensures
            builder.objects().len() == self.objects().len() + 1,
            builder.objects().drop_last() == self.objects(),
            builder.objects().last().volume() == sphere,
            builder.objects().last().bbox() == sphere.bounding_box_model(span()),
            builder.background() == self.background(),
    {
        let builder = self.add_object(Object::new(sphere));
        proof {
            assert(builder.objects().drop_last() =~= self.objects());
        }
        builder
    }

    /// The scene of the objects added, before the background.
    pub fn build(self) -> (scene: Scene<H>)
        ensures
            scene.wf(),
            scene.spec_bvh().leaves().to_multiset() == self.objects().to_multiset(),
            scene.spec_background() == self.background(),
    {
        Scene::new(self.objects, self.background)
    }
}

impl<H: Hitable> Default for SceneBuilder<H> {
    /// The making of a scene before black, with no object yet.
    fn default() -> (builder: Self)
        ensures
            builder.objects() == Seq::<Object<H>>::empty(),
            builder.background() == Background::Color(Vec3::spec_zero()),
    {
        SceneBuilder { objects: Vec::new(), background: Background::default() }
    }
}

} // verus!
