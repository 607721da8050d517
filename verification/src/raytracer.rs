//! The renderer: which worker draws which rows, where a row goes in the
//! image, and how far a ray is followed.

use vstd::prelude::*;
use crate::aabb::{slab_source, Slab};
use crate::hitable::{HitRecord, Hitable};
use crate::materials::material::Material;
use crate::ray::Ray;
use crate::scalar::Scalar;
use crate::scene::Scene;
use crate::vec::Color3;

verus! {

/// The number of workers that share the rows of an image.
pub const NB_THREADS: usize = 8;

/// The pattern of the distance from which on a ray's hits count: a
/// thousandth, so that a ray does not hit the surface it starts from.
pub const NEAR_BITS: u32 = 0x3a83_126f;

/// What a surface added to a ray that went on from it.
#[derive(Clone, Copy, Debug)]
pub struct Bounce {
    /// The light that the surface gives off.
    pub emitted: Color3,
    /// How much of each colour the surface keeps of what comes back along
    /// the ray that went on.
    pub attenuation: Color3,
}

/// How the way of a ray ended.
#[derive(Clone, Copy, Debug)]
pub enum End {
    /// The ray had been sent on as often as is allowed: it brings no light.
    Exhausted,
    /// The ray hit nothing: it brings the light of the background.
    Missed(Ray),
    /// The ray ended in a surface: it brings the light that the surface
    /// gives off.
    Absorbed(Color3),
}

/// The way of a ray through a scene: the surfaces that sent it on, in the
/// order in which it met them, and how it ended.
///
/// Its light is that of its end, taken back through the surfaces from the
/// last to the first: each gives off its own and adds what it keeps of the
/// light that came back.
#[derive(Debug)]
pub struct Path {
    /// The surfaces that sent the ray on.
    pub bounces: Vec<Bounce>,
    /// How the way ended.
    pub end: End,
}

/// Whether `light` is what comes back along a way whose end brings
/// `incoming`: the last surface turns what comes in into what it sends back,
/// the one before it turns that, and so on to the first.
pub open spec fn carried<T: Fn(Bounce, Color3) -> Color3>(
    bounces: Seq<Bounce>,
    incoming: Color3,
    light: Color3,
    tint: T,
) -> bool
    decreases bounces.len(),
{
    if bounces.len() == 0 {
        light == incoming
    } else {
        exists|sent_back: Color3| #[trigger]
            call_ensures(tint, (bounces.last(), incoming), sent_back) && carried(
                bounces.drop_last(),
                sent_back,
                light,
                tint,
            )
    }
}

/// Whether `light` is what the end of a way brings: nothing where the ray
/// was spent, what the surface gives off where it was taken in, and what
/// `sky` answers for the ray where it hit nothing.
pub open spec fn brought<S: Fn(Ray) -> Color3>(end: End, light: Color3, sky: S) -> bool {
    match end {
        End::Exhausted => light == Color3::spec_zero(),
        End::Absorbed(emitted) => light == emitted,
        End::Missed(ray) => call_ensures(sky, (ray,), light),
    }
}

impl Path {
    /// The light that comes back along the way. `sky` gives the light of the
    /// background for a ray that hit nothing; `tint` gives, for a surface and
    /// the light that comes back to it, the light that it sends back: what
    /// it gives off, and what it keeps of the light that came.
    pub fn shade<S: Fn(Ray) -> Color3, T: Fn(Bounce, Color3) -> Color3>(
        &self,
        sky: &S,
        tint: &T,
    ) -> (light: Color3)
        requires
            forall|ray: Ray| call_requires(*sky, (ray,)),
            forall|bounce: Bounce, incoming: Color3| call_requires(*tint, (bounce, incoming)),
        ensures
            exists|incoming: Color3|
                brought(self.end, incoming, *sky) && #[trigger] carried(
                    self.bounces@,
                    incoming,
                    light,
                    *tint,
                ),
    {
        let incoming = match self.end {
            End::Exhausted => Color3::zero(),
            End::Absorbed(emitted) => emitted,
            End::Missed(ray) => sky(ray),
        };
        let mut light = incoming;
        let mut i: usize = self.bounces.len();
        proof {
            assert(self.bounces@.take(i as int) =~= self.bounces@);
        }
        while i > 0
            invariant
                i <= self.bounces@.len(),
                forall|bounce: Bounce, incoming: Color3| call_requires(*tint, (bounce, incoming)),
                forall|out: Color3| #[trigger]
                    carried(self.bounces@.take(i as int), light, out, *tint) ==> carried(
                        self.bounces@,
                        incoming,
                        out,
                        *tint,
                    ),
            decreases i,
        {
            let ghost before = light;
            i -= 1;
            light = tint(self.bounces[i], light);
            proof {
                let longer = self.bounces@.take(i + 1);
                assert(longer.drop_last() =~= self.bounces@.take(i as int));
                assert(longer.last() == self.bounces@[i as int]);
                assert(call_ensures(*tint, (longer.last(), before), light));
                assert forall|out: Color3| #[trigger]
                    carried(self.bounces@.take(i as int), light, out, *tint) implies carried(
                    self.bounces@,
                    incoming,
                    out,
                    *tint,
                ) by {
                    assert(carried(longer.drop_last(), light, out, *tint));
                    assert(carried(longer, before, out, *tint));
                }
            }
        }
        proof {
            assert(carried(self.bounces@.take(0), light, light, *tint));
        }
        light
    }
}

/// Whether `light` is what the surface of a hit gave off, asked at the place
/// of the hit.
pub open spec fn gave_off<M: Material>(first: HitRecord<M>, light: Color3) -> bool {
    call_ensures(
        <M as Material>::emitted,
        (&first.material, first.texture_coordinates, &first.hit_point),
        light,
    )
}

/// Whether `scattered` is what the surface of a hit answered, asked with the
/// ray that hit it and the record of the hit.
pub open spec fn sent_on<M: Material>(
    first: HitRecord<M>,
    ray: Ray,
    scattered: Option<(Ray, Color3)>,
) -> bool {
    call_ensures(<M as Material>::scatter, (&first.material, &ray, &first), scattered)
}

/// What follows from the two answers of a surface. Where it sends the ray
/// on, the way holds one surface more, with what it gave off and what it
/// keeps, and the ray to follow next is the one it sent on. Where it takes
/// the ray in, the way ends there, with the light that the surface gave off.
pub fn step(bounces: &mut Vec<Bounce>, emitted: Color3, scattered: Option<(Ray, Color3)>) -> (next:
    Result<Ray, End>)
    ensures
        scattered matches Some((onward, attenuation)) ==> next == Ok::<Ray, End>(onward)
            && final(bounces)@ == old(bounces)@.push(Bounce { emitted, attenuation }),
        scattered is None ==> next == Err::<Ray, End>(End::Absorbed(emitted)) && final(bounces)@
            == old(bounces)@,
{
    match scattered {
        Some((onward, attenuation)) => {
            bounces.push(Bounce { emitted, attenuation });
            Ok(onward)
        },
        None => Err(End::Absorbed(emitted)),
    }
}

/// The first row of a worker's band in an image of some height: the workers
/// share the rows in equal parts, one after another.
pub open spec fn band_start(height: int, worker: int) -> int {
    worker * height / (NB_THREADS as int)
}

/// Whether a row lies in the band of a worker.
pub open spec fn in_band(height: int, worker: int, row: int) -> bool {
    &&& 0 <= worker < NB_THREADS
    &&& band_start(height, worker) <= row < band_start(height, worker + 1)
}

/// Each row of an image lies in the band of exactly one worker, and the
/// bands follow one another from the first row to the last.
pub proof fn lemma_bands_partition(height: int, row: int)
    requires
        0 <= row < height,
    ensures
        band_start(height, 0) == 0,
        band_start(height, NB_THREADS as int) == height,
        forall|worker: int|
            0 <= worker < NB_THREADS ==> band_start(height, worker) <= #[trigger] band_start(
                height,
                worker + 1,
            ),
        exists|worker: int| in_band(height, worker, row),
        forall|one: int, other: int|
            #[trigger] in_band(height, one, row) && #[trigger] in_band(height, other, row) ==> one
                == other,
{
    let s0 = band_start(height, 0);
    let s1 = band_start(height, 1);
    let s2 = band_start(height, 2);
    let s3 = band_start(height, 3);
    let s4 = band_start(height, 4);
    let s5 = band_start(height, 5);
    let s6 = band_start(height, 6);
    let s7 = band_start(height, 7);
    let s8 = band_start(height, 8);
    assert(s0 == 0 && s8 == height);
    assert(s0 <= s1 <= s2 <= s3 <= s4 <= s5 <= s6 <= s7 <= s8);
    if row < s1 {
        assert(in_band(height, 0, row));
    } else if row < s2 {
        assert(in_band(height, 1, row));
    } else if row < s3 {
        assert(in_band(height, 2, row));
    } else if row < s4 {
        assert(in_band(height, 3, row));
    } else if row < s5 {
        assert(in_band(height, 4, row));
    } else if row < s6 {
        assert(in_band(height, 5, row));
    } else if row < s7 {
        assert(in_band(height, 6, row));
    } else {
        assert(in_band(height, 7, row));
    }
}

/// A renderer: the size of the image, how often each pixel is sampled, how
/// often a ray is sent on, and the camera and the scene.
#[derive(Debug)]
pub struct RayTracer<C, H: Hitable> {
    width: u32,
    height: u32,
    samples: usize,
    max_reflections: usize,
    camera: C,
    scene: Scene<H>,
}

impl<C, H: Hitable> RayTracer<C, H> {
    /// The width of the image, in pixels.
    pub closed spec fn spec_width(&self) -> u32 {
        self.width
    }

    /// The height of the image, in pixels.
    pub closed spec fn spec_height(&self) -> u32 {
        self.height
    }

    /// The number of rays through each pixel.
    pub closed spec fn spec_samples(&self) -> usize {
        self.samples
    }

    /// How often a ray is sent on at most.
    pub closed spec fn spec_max_reflections(&self) -> usize {
        self.max_reflections
    }

    /// The camera.
    pub closed spec fn spec_camera(&self) -> C {
        self.camera
    }

    /// The scene.
    pub closed spec fn spec_scene(&self) -> Scene<H> {
        self.scene
    }

    /// The number of bytes of the image: three for each pixel.
    pub open spec fn frame_len(&self) -> int {
        self.spec_width() * self.spec_height() * 3
    }

    /// Where in the image the first byte of a pixel stands: rows follow one
    /// another from the top, three bytes to the pixel.
    pub open spec fn pixel_offset(&self, x: int, y: int) -> int {
        (x + y * self.spec_width()) * 3
    }

    /// What the scene answers a ray with: its closest hit from a thousandth
    /// on.
    pub open spec fn struck<F: Fn(Ray, usize, Scalar, Scalar) -> Slab>(
        &self,
        ray: Ray,
        slab: F,
    ) -> Option<HitRecord<H::Material>> {
        self.spec_scene().spec_bvh().hit_model(
            ray,
            Scalar { bits: NEAR_BITS },
            Scalar::spec_infinity(),
            slab,
        )
    }

    /// Whether a way, given by its surfaces and its end, is one that a ray
    /// may take which has been sent on `depth` times already.
    ///
    /// A ray that is spent takes no way at all. One that hits nothing ends in
    /// the background at once. Any other ray meets a surface, which is asked
    /// for the light that it gives off and for where it sends the ray. Where
    /// it takes the ray in, the way ends with the light given off. Where it
    /// sends the ray on, it is the first surface of the way, with that light
    /// and with what it keeps, and the rest is a way of the ray that was sent
    /// on, sent on once more often.
    pub open spec fn traced<F: Fn(Ray, usize, Scalar, Scalar) -> Slab>(
        &self,
        ray: Ray,
        depth: int,
        bounces: Seq<Bounce>,
        end: End,
        slab: F,
    ) -> bool where H::Material: Material
        decreases bounces.len(),
    {
        if depth >= self.spec_max_reflections() {
            bounces.len() == 0 && end is Exhausted
        } else {
            match self.struck(ray, slab) {
                None => bounces.len() == 0 && end == End::Missed(ray),
                Some(first) => exists|light: Color3, scattered: Option<(Ray, Color3)>|
                    #![trigger gave_off(first, light), sent_on(first, ray, scattered)]
                    {
                        &&& gave_off(first, light)
                        &&& sent_on(first, ray, scattered)
                        &&& match scattered {
                            None => bounces.len() == 0 && end == End::Absorbed(light),
                            Some((onward, attenuation)) => {
                                &&& bounces.len() > 0
                                &&& bounces[0] == (Bounce { emitted: light, attenuation })
                                &&& self.traced(onward, depth + 1, bounces.drop_first(), end, slab)
                            },
                        }
                    },
            }
        }
    }

    /// A way never holds more surfaces than a ray may still be sent on, and
    /// the ray is spent exactly where the way holds that many.
    pub proof fn lemma_traced_length<F: Fn(Ray, usize, Scalar, Scalar) -> Slab>(
        &self,
        ray: Ray,
        depth: int,
        bounces: Seq<Bounce>,
        end: End,
        slab: F,
    ) where H::Material: Material
        requires
            self.traced(ray, depth, bounces, end, slab),
        ensures
            depth >= self.spec_max_reflections() ==> bounces.len() == 0,
            depth < self.spec_max_reflections() ==> depth + bounces.len()
                <= self.spec_max_reflections(),
            end is Exhausted <==> depth + bounces.len() >= self.spec_max_reflections(),
        decreases bounces.len(),
    {
        if depth < self.spec_max_reflections() {
            match self.struck(ray, slab) {
                None => {},
                Some(first) => {
                    let (light, scattered) = choose|light: Color3, scattered: Option<(Ray, Color3)>|
                        #![trigger gave_off(first, light), sent_on(first, ray, scattered)]
                        {
                            &&& gave_off(first, light)
                            &&& sent_on(first, ray, scattered)
                            &&& match scattered {
                                None => bounces.len() == 0 && end == End::Absorbed(light),
                                Some((onward, attenuation)) => {
                                    &&& bounces.len() > 0
                                    &&& bounces[0] == (Bounce { emitted: light, attenuation })
                                    &&& self.traced(
                                        onward,
                                        depth + 1,
                                        bounces.drop_first(),
                                        end,
                                        slab,
                                    )
                                },
                            }
                        };
                    match scattered {
                        None => {},
                        Some((onward, attenuation)) => {
                            self.lemma_traced_length(
                                onward,
                                depth + 1,
                                bounces.drop_first(),
                                end,
                                slab,
                            );
                        },
                    }
                },
            }
        }
    }

    /// In a scene without a box no ray hits anything: every ray that may go
    /// on at all ends in the background at once.
    pub proof fn lemma_nothing_to_hit<F: Fn(Ray, usize, Scalar, Scalar) -> Slab>(
        &self,
        ray: Ray,
        depth: int,
        bounces: Seq<Bounce>,
        end: End,
        slab: F,
    ) where H::Material: Material
        requires
            self.spec_scene().spec_bvh().bbox() is None,
            depth < self.spec_max_reflections(),
            self.traced(ray, depth, bounces, end, slab),
        ensures
            bounces.len() == 0,
            end == End::Missed(ray),
    {
        self.spec_scene().spec_bvh().lemma_no_box_no_hit(
            ray,
            Scalar { bits: NEAR_BITS },
            Scalar::spec_infinity(),
            slab,
        );
    }

    /// Whether a way is one that a ray may take from its start which `shoot`
    /// gives for a column and a row.
    pub open spec fn sampled<G: Fn(usize, usize) -> Ray, F: Fn(Ray, usize, Scalar, Scalar) -> Slab>(
        &self,
        column: usize,
        row: usize,
        path: Path,
        shoot: G,
        slab: F,
    ) -> bool where H::Material: Material {
        exists|ray: Ray| #[trigger]
            call_ensures(shoot, (column, row), ray) && self.traced(
                ray,
                0,
                path.bounces@,
                path.end,
                slab,
            )
    }

    /// A renderer.
    pub fn new(
        width: u32,
        height: u32,
        samples: usize,
        max_reflections: usize,
        camera: C,
        scene: Scene<H>,
    ) -> (raytracer: Self)
        ensures
            raytracer.spec_width() == width,
            raytracer.spec_height() == height,
            raytracer.spec_samples() == samples,
            raytracer.spec_max_reflections() == max_reflections,
            raytracer.spec_camera() == camera,
            raytracer.spec_scene() == scene,
    {
        RayTracer { width, height, samples, max_reflections, camera, scene }
    }

    /// The width of the image, in pixels.
    #[verifier::when_used_as_spec(spec_width)]
    pub fn width(&self) -> (width: u32)
        ensures
            width == self.spec_width(),
    {
        self.width
    }

    /// The height of the image, in pixels.
    #[verifier::when_used_as_spec(spec_height)]
    pub fn height(&self) -> (height: u32)
        ensures
            height == self.spec_height(),
    {
        self.height
    }

    /// The number of rays through each pixel.
    #[verifier::when_used_as_spec(spec_samples)]
    pub fn samples(&self) -> (samples: usize)
        ensures
            samples == self.spec_samples(),
    {
        self.samples
    }

    /// How often a ray is sent on at most.
    #[verifier::when_used_as_spec(spec_max_reflections)]
    pub fn max_reflections(&self) -> (max_reflections: usize)
        ensures
            max_reflections == self.spec_max_reflections(),
    {
        self.max_reflections
    }

    /// The camera.
    pub fn camera(&self) -> (camera: &C)
        ensures
            *camera == self.spec_camera(),
    {
        &self.camera
    }

    /// The scene.
    pub fn scene(&self) -> (scene: &Scene<H>)
        ensures
            *scene == self.spec_scene(),
    {
        &self.scene
    }

    /// The rows that a worker draws: from the first, up to but not including
    /// the second.
    pub fn rows(&self, worker: usize) -> (band: (usize, usize))
        requires
            worker < NB_THREADS,
        ensures
            band.0 == band_start(self.spec_height() as int, worker as int),
            band.1 == band_start(self.spec_height() as int, worker + 1),
            band.0 <= band.1 <= self.spec_height(),
    {
        let height: u64 = self.height as u64;
        assert(0 <= worker * height <= (worker + 1) * height <= 8 * height) by (nonlinear_arith)
            requires
                0 <= worker < 8,
                0 <= height,
        ;
        let first: u64 = (worker as u64) * height / (NB_THREADS as u64);
        let last: u64 = (worker as u64 + 1) * height / (NB_THREADS as u64);
        assert(first == band_start(height as int, worker as int));
        assert(last == band_start(height as int, worker + 1));
        assert(first <= last <= height) by {
            let h = height as int;
            let w = worker as int;
            let low = w * h;
            let high = (w + 1) * h;
            assert(0 <= low <= high <= 8 * h) by (nonlinear_arith)
                requires
                    0 <= w < 8,
                    0 <= h,
                    low == w * h,
                    high == (w + 1) * h,
            ;
            assert(first == low / 8);
            assert(last == high / 8);
            vstd::arithmetic::div_mod::lemma_div_is_ordered(low, high, 8);
            vstd::arithmetic::div_mod::lemma_div_is_ordered(high, 8 * h, 8);
            vstd::arithmetic::div_mod::lemma_div_multiples_vanish(h, 8);
        }
        (first as usize, last as usize)
    }

    /// The row of the picture, counted from the bottom, that a row of the
    /// image shows: the image runs from the top.
    pub fn flipped(&self, y: usize) -> (row: usize)
        requires
            y < self.spec_height(),
        ensures
            row == self.spec_height() - y - 1,
    {
        self.height as usize - y - 1
    }

    /// An image of the renderer's size, all black. Its bytes can be counted.
    pub fn frame(&self) -> (buffer: Vec<u8>)
        requires
            self.frame_len() <= usize::MAX,
        ensures
            buffer@.len() == self.frame_len(),
            forall|i: int| 0 <= i < buffer@.len() ==> buffer@[i] == 0,
    {
        assert(self.width * self.height <= self.width * self.height * 3) by (nonlinear_arith);
        let pixels: usize = self.width as usize * self.height as usize;
        vec![0u8; pixels * 3]
    }

    /// Writes a row of pixels into the image. The bytes of the row take the
    /// colours given, pixel by pixel; every other byte stays as it was.
    pub fn commit_row(&self, buffer: &mut Vec<u8>, y: usize, line: &Vec<(u8, u8, u8)>)
        requires
            old(buffer)@.len() == self.frame_len(),
            y < self.spec_height(),
            line@.len() == self.spec_width(),
        ensures
            final(buffer)@.len() == old(buffer)@.len(),
            forall|x: int|
                0 <= x < self.spec_width() ==> {
                    &&& final(buffer)@[self.pixel_offset(x, y as int)] == (#[trigger] line@[x]).0
                    &&& final(buffer)@[self.pixel_offset(x, y as int) + 1] == line@[x].1
                    &&& final(buffer)@[self.pixel_offset(x, y as int) + 2] == line@[x].2
                },
            forall|i: int|
                0 <= i < old(buffer)@.len() && !(self.pixel_offset(0, y as int) <= i
                    < self.pixel_offset(0, y + 1)) ==> final(buffer)@[i] == old(buffer)@[i],
    {
        let width: usize = self.width as usize;
        let length: usize = buffer.len();
        assert(y * width + width <= self.width * self.height && y * width >= 0) by (nonlinear_arith)
            requires
                0 <= y < self.height,
                width == self.width,
        ;
        let row_start: usize = y * width;
        assert(self.pixel_offset(0, y + 1) == self.pixel_offset(width as int, y as int))
            by (nonlinear_arith)
            requires
                width == self.spec_width(),
        ;
        let mut x: usize = 0;
        while x < width
            invariant
                x <= width,
                width == self.spec_width(),
                y < self.spec_height(),
                row_start == y * width,
                row_start + width <= self.spec_width() * self.spec_height(),
                line@.len() == width,
                buffer@.len() == old(buffer)@.len(),
                buffer@.len() == self.frame_len(),
                buffer@.len() == length,
                forall|done: int|
                    0 <= done < x ==> {
                        &&& buffer@[self.pixel_offset(done, y as int)] == (#[trigger] line@[done]).0
                        &&& buffer@[self.pixel_offset(done, y as int) + 1] == line@[done].1
                        &&& buffer@[self.pixel_offset(done, y as int) + 2] == line@[done].2
                    },
                forall|i: int|
                    0 <= i < buffer@.len() && !(self.pixel_offset(0, y as int) <= i
                        < self.pixel_offset(x as int, y as int)) ==> buffer@[i] == old(buffer)@[i],
            decreases width - x,
        {
            let pixel = line[x];
            assert((x + row_start) * 3 + 3 <= self.spec_width() * self.spec_height() * 3
                && self.pixel_offset(x as int, y as int) == (x + row_start) * 3 && self.pixel_offset(
                x + 1,
                y as int,
            ) == (x + row_start) * 3 + 3) by (nonlinear_arith)
                requires
                    0 <= x < width,
                    row_start == y * width,
                    row_start + width <= self.spec_width() * self.spec_height(),
                    width == self.spec_width(),
            ;
            assert forall|done: int| 0 <= done < x implies self.pixel_offset(done, y as int) + 3
                <= self.pixel_offset(x as int, y as int) by {
                assert((done + y * self.spec_width()) * 3 + 3 <= (x + y * self.spec_width()) * 3)
                    by (nonlinear_arith)
                    requires
                        0 <= done < x,
                ;
            }
            let at: usize = (x + row_start) * 3;
            buffer.set(at, pixel.0);
            buffer.set(at + 1, pixel.1);
            buffer.set(at + 2, pixel.2);
            x += 1;
        }
    }

    /// The ways of the rays through a pixel: as many as the renderer samples
    /// each pixel with, each ray asked of `shoot` for the pixel's column and
    /// its row counted from the bottom, and each followed through the scene
    /// from the start.
    pub fn pixel<G: Fn(usize, usize) -> Ray, F: Fn(Ray, usize, Scalar, Scalar) -> Slab>(
        &self,
        x: usize,
        y: usize,
        shoot: &G,
        slab: &F,
    ) -> (paths: Vec<Path>) where H::Material: Material
        requires
            y < self.spec_height(),
            forall|column: usize, row: usize| call_requires(*shoot, (column, row)),
            slab_source(*slab),
        ensures
            paths@.len() == self.spec_samples(),
            forall|i: int|
                0 <= i < paths@.len() ==> self.sampled(
                    x,
                    (self.spec_height() - y - 1) as usize,
                    #[trigger] paths@[i],
                    *shoot,
                    *slab,
                ),
    {
        let row: usize = self.flipped(y);
        let mut paths: Vec<Path> = Vec::new();
        let mut taken: usize = 0;
        while taken < self.samples
            invariant
                taken <= self.spec_samples(),
                paths@.len() == taken,
                forall|column: usize, row: usize| call_requires(*shoot, (column, row)),
                slab_source(*slab),
                row == self.spec_height() - y - 1,
                forall|i: int|
                    0 <= i < paths@.len() ==> self.sampled(x, row, #[trigger] paths@[i], *shoot, *slab),
            decreases self.spec_samples() - taken,
        {
            let ray = shoot(x, row);
            let path = self.cast(&ray, 0, slab);
            let ghost before = paths@;
            paths.push(path);
            proof {
                assert forall|i: int| 0 <= i < paths@.len() implies self.sampled(
                    x,
                    row,
                    #[trigger] paths@[i],
                    *shoot,
                    *slab,
                ) by {
                    if i < before.len() {
                        assert(paths@[i] == before[i]);
                    } else {
                        assert(call_ensures(*shoot, (x, row), ray) && self.traced(
                            ray,
                            0,
                            paths@[i].bounces@,
                            paths@[i].end,
                            *slab,
                        ));
                    }
                }
            }
            taken += 1;
        }
        paths
    }

    /// Follows a ray through the scene, from a count of the times it has been
    /// sent on already.
    ///
    /// A ray that has been sent on as often as is allowed ends at once.
    /// Else its closest hit from a thousandth on is looked for: without one
    /// it ends in the background; with one, the surface gives off its light
    /// and sends the ray on, or takes it in. What the surfaces give off and
    /// where they send the ray is theirs to say; the way holds one surface
    /// for each time the ray went on, and the count never passes what is
    /// allowed.
    pub fn cast<F: Fn(Ray, usize, Scalar, Scalar) -> Slab>(
        &self,
        ray: &Ray,
        depth: usize,
        slab: &F,
    ) -> (path: Path) where H::Material: Material
        requires
            slab_source(*slab),
        ensures
            self.traced(*ray, depth as int, path.bounces@, path.end, *slab),
    {
        let near = Scalar::from_bits(NEAR_BITS);
        let mut current: Ray = *ray;
        let mut level: usize = depth;
        let mut bounces: Vec<Bounce> = Vec::new();
        loop
            invariant
                slab_source(*slab),
                near == (Scalar { bits: NEAR_BITS }),
                level == depth + bounces@.len(),
                bounces@.len() > 0 ==> level <= self.spec_max_reflections(),
                forall|rest: Seq<Bounce>, end: End| #[trigger]
                    self.traced(current, level as int, rest, end, *slab) ==> self.traced(
                        *ray,
                        depth as int,
                        bounces@ + rest,
                        end,
                        *slab,
                    ),
            decreases self.spec_max_reflections() - level,
        {
            let ghost none = Seq::<Bounce>::empty();
            proof {
                assert(bounces@ + none =~= bounces@);
            }
            if level >= self.max_reflections {
                proof {
                    assert(self.traced(current, level as int, none, End::Exhausted, *slab));
                }
                return Path { bounces, end: End::Exhausted };
            }
            let record = match self.scene.bvh().hit(&current, near, Scalar::infinity(), slab) {
                None => {
                    proof {
                        assert(self.traced(current, level as int, none, End::Missed(current), *slab));
                    }
                    return Path { bounces, end: End::Missed(current) };
                },
                Some(record) => record,
            };
            let emitted = record.material().emitted(
                record.texture_coordinates(),
                record.hit_point(),
            );
            let scattered = record.material().scatter(&current, &record);
            proof {
                assert(gave_off(record, emitted));
                assert(sent_on(record, current, scattered));
            }
            let ghost before = bounces@;
            match step(&mut bounces, emitted, scattered) {
                Err(end) => {
                    proof {
                        assert(self.traced(current, level as int, none, end, *slab));
                    }
                    return Path { bounces, end };
                },
                Ok(onward) => {
                    proof {
                        let bounce = bounces@.last();
                        assert forall|rest: Seq<Bounce>, end: End| #[trigger]
                            self.traced(onward, level + 1, rest, end, *slab) implies self.traced(
                            *ray,
                            depth as int,
                            bounces@ + rest,
                            end,
                            *slab,
                        ) by {
                            let longer = seq![bounce] + rest;
                            assert(longer.drop_first() =~= rest);
                            assert(longer[0] == bounce);
                            assert(self.traced(current, level as int, longer, end, *slab));
                            assert(before + longer =~= bounces@ + rest);
                        }
                    }
                    current = onward;
                    level += 1;
                },
            }
        }
    }
}

} // verus!
