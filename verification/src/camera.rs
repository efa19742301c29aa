//! The camera: viewport geometry, sampled rays, shading and the render loop.

use crate::color::Color;
use crate::constants::{infinity, random_generator, RandomGenerator, INFINITY_RAW};
use crate::hittable::{HitRecord, Hittable};
use crate::interval::Interval;
use crate::ray::Ray;
use crate::scalar::{
    lemma_times_of_fractions, lemma_times_whole, truncated_quotient, Scalar, ONE_RAW,
};
use crate::vec3::{Point3, Vec3};
use vstd::arithmetic::div_mod::lemma_fundamental_div_mod_converse;
use vstd::prelude::*;

verus! {

/// The raw value of one half.
pub const HALF_RAW: i64 = 0x8000_0000;

/// The raw value of 0.7, rounded toward zero.
pub const SEVEN_TENTHS_RAW: i64 = 3006477107;

/// The raw value of the aspect ratio, nine sixteenths (height over width).
pub const ASPECT_RATIO_RAW: i64 = 0x9000_0000;

/// The raw value of the least distance at which a hit counts: 0.0001,
/// rounded toward zero. It keeps a bounced ray from hitting the surface it
/// starts on.
pub const SHADOW_EPSILON_RAW: i64 = 429496;

/// The number of rays per pixel unless another is given.
pub const DEFAULT_SAMPLES_PER_PIXEL: i32 = 100;

/// The number of bounces a ray is followed through unless another is given.
pub const DEFAULT_MAX_DEPTH: i32 = 50;

/// The image and viewport geometry, the number of samples per pixel and the
/// bound on the bounces of a ray.
#[derive(Clone, Copy, Debug, PartialEq, Eq, Structural)]
pub struct Camera {
    pub image_height: i32,
    pub image_width: i32,
    pub camera_center: Point3,
    pub pixel00_loc: Point3,
    pub pixel_delta_u: Vec3,
    pub pixel_delta_v: Vec3,
    pub viewport_height: Scalar,
    pub viewport_width: Scalar,
    pub viewport_upper_left: Vec3,
    pub viewport_u: Vec3,
    pub viewport_v: Vec3,
    pub focal_length: Scalar,
    pub samples_per_pixel: i32,
    pub pixel_sample_scale: Scalar,
    pub max_recursive_depth: i32,
}

/// The distances at which a hit counts for shading: above the shadow
/// epsilon, below infinity.
pub open spec fn search_interval() -> Interval {
    Interval { min: Scalar { raw: SHADOW_EPSILON_RAW }, max: Scalar { raw: INFINITY_RAW } }
}

/// The colour of the background in `direction`: with `t` half of the
/// height of the unit direction plus one, each channel is
/// `(1 - t) * 1 + t * c` for `c` = 0.5, 0.7 and 1.
pub open spec fn sky(direction: Vec3) -> Color {
    let one = Scalar { raw: ONE_RAW };
    let t = Scalar { raw: HALF_RAW }.times(direction.normalized().y.plus(one));
    let rest = one.minus(t).times(one);
    Color(
        Vec3 {
            x: rest.plus(t.times(Scalar { raw: HALF_RAW })),
            y: rest.plus(t.times(Scalar { raw: SEVEN_TENTHS_RAW })),
            z: rest.plus(t.times(one)),
        },
    )
}

/// Every channel of the sky lies between one half and one, whatever the
/// direction.
pub proof fn lemma_sky_in_range(direction: Vec3)
    ensures
        sky(direction).at_least(HALF_RAW as int),
        sky(direction).in_unit_range(),
{
    direction.lemma_normalized_within_unit();
    let one = Scalar { raw: ONE_RAW };
    let half = Scalar { raw: HALF_RAW };
    let lifted = direction.normalized().y.plus(one);
    assert(0 <= lifted@ <= 2 * ONE_RAW);
    let t = half.times(lifted);
    assert(truncated_quotient(HALF_RAW * lifted@, ONE_RAW as int) == lifted@ / 2)
        by (nonlinear_arith)
        requires
            0 <= lifted@,
            truncated_quotient(HALF_RAW * lifted@, ONE_RAW as int) == (HALF_RAW * lifted@) / (
            ONE_RAW as int),
            HALF_RAW == 0x8000_0000,
            ONE_RAW == 0x1_0000_0000,
    ;
    assert(0 <= t@ <= ONE_RAW);
    lemma_times_whole(one.minus(t), 1);
    let rest = one.minus(t).times(one);
    assert(rest@ == ONE_RAW - t@);
    lemma_times_of_fractions(t, half);
    lemma_times_of_fractions(t, Scalar { raw: SEVEN_TENTHS_RAW });
    lemma_times_of_fractions(t, one);
}

/// The ray that leaves the hit of `rec` when the two unit samples `first`
/// and `second` were drawn: from the hit point, along `first` turned to the
/// side of the normal plus `second`.
pub open spec fn scattered(rec: HitRecord, first: Vec3, second: Vec3) -> Ray {
    Ray { origin: rec.p, direction: first.toward(rec.normal).plus(second) }
}

/// Whether each pair of `draws` holds two unit samples.
pub open spec fn unit_draws(draws: Seq<(Vec3, Vec3)>) -> bool {
    forall|k: int|
        0 <= k < draws.len() ==> (#[trigger] draws[k]).0.is_unit_sample()
            && draws[k].1.is_unit_sample()
}

/// The colour that `r` brings back from `world` when it is followed through
/// at most `depth` bounces and bounce `k` uses the pair `draws[k]`: black
/// when no bounce is left; the sky where the ray hits nothing; else half of
/// what the scattered ray brings back.
pub open spec fn shade<W: Hittable>(
    world: &W,
    r: Ray,
    depth: int,
    draws: Seq<(Vec3, Vec3)>,
) -> Color
    decreases depth,
{
    if depth <= 0 {
        Color::black()
    } else {
        match world.hit_spec(r, search_interval()) {
            Some(rec) => shade(
                world,
                scattered(rec, draws[0].0, draws[0].1),
                depth - 1,
                draws.skip(1),
            ).scaled(Scalar { raw: HALF_RAW }),
            None => sky(r.direction),
        }
    }
}

/// Half of a colour whose channels lie between zero and one has its
/// channels between zero and one half.
pub proof fn lemma_half_in_range(c: Color)
    requires
        c.in_unit_range(),
    ensures
        c.scaled(Scalar { raw: HALF_RAW }).at_most(HALF_RAW as int),
{
    let half = Scalar { raw: HALF_RAW };
    lemma_times_of_fractions(c.0.x, half);
    lemma_times_of_fractions(c.0.y, half);
    lemma_times_of_fractions(c.0.z, half);
}

/// Whatever the ray, the world and the draws: every channel of the colour
/// brought back lies between zero and one, and between zero and one half
/// where the ray hits with a bounce left.
pub proof fn lemma_shade_in_range<W: Hittable>(
    world: &W,
    r: Ray,
    depth: int,
    draws: Seq<(Vec3, Vec3)>,
)
    ensures
        shade(world, r, depth, draws).in_unit_range(),
        depth > 0 && world.hit_spec(r, search_interval()) is Some ==> shade(
            world,
            r,
            depth,
            draws,
        ).at_most(HALF_RAW as int),
    decreases depth,
{
    if depth > 0 {
        match world.hit_spec(r, search_interval()) {
            Some(rec) => {
                let bounced = scattered(rec, draws[0].0, draws[0].1);
                lemma_shade_in_range(world, bounced, depth - 1, draws.skip(1));
                lemma_half_in_range(shade(world, bounced, depth - 1, draws.skip(1)));
            },
            None => {
                lemma_sky_in_range(r.direction);
            },
        }
    }
}

/// The sum of `colors`, added up from the first on, starting from black.
pub open spec fn total(colors: Seq<Color>) -> Color
    decreases colors.len(),
{
    if colors.len() == 0 {
        Color::black()
    } else {
        total(colors.drop_last()).plus(colors.last())
    }
}

/// Whether `offset` is a place within a pixel: at least minus one half and
/// less than one half across and down, and zero in depth.
pub open spec fn pixel_offset(offset: Vec3) -> bool {
    &&& -HALF_RAW <= offset.x@ < HALF_RAW
    &&& -HALF_RAW <= offset.y@ < HALF_RAW
    &&& offset.z@ == 0
}

/// The background colour in `direction`. Each channel lies between one half
/// and one.
pub fn sky_color(direction: Vec3) -> (c: Color)
    ensures
        c == sky(direction),
        c.at_least(HALF_RAW as int),
        c.in_unit_range(),
{
    proof {
        lemma_sky_in_range(direction);
    }
    let one = Scalar::from_int(1);
    let t = Scalar::from_raw(HALF_RAW) * (direction.unit_vector().y() + one);
    Color::new(
        (one - t) * one + t * Scalar::from_raw(HALF_RAW),
        (one - t) * one + t * Scalar::from_raw(SEVEN_TENTHS_RAW),
        (one - t) * one + t * one,
    )
}

/// The ray that leaves a hit, given what was drawn for it: `on_hemisphere`
/// on the side of the normal, and `on_sphere`.
pub fn scatter(rec: &HitRecord, on_hemisphere: Vec3, on_sphere: Vec3) -> (r: Ray)
    ensures
        r == (Ray { origin: rec.p, direction: on_hemisphere.plus(on_sphere) }),
{
    Ray::new(rec.p(), on_hemisphere + on_sphere)
}

impl Camera {
    /// The camera before it is initialized: every field is zero.
    pub open spec fn blank() -> Camera {
        let zero = Scalar { raw: 0 };
        Camera {
            image_height: 0,
            image_width: 0,
            camera_center: Vec3::zero(),
            pixel00_loc: Vec3::zero(),
            pixel_delta_u: Vec3::zero(),
            pixel_delta_v: Vec3::zero(),
            viewport_height: zero,
            viewport_width: zero,
            viewport_upper_left: Vec3::zero(),
            viewport_u: Vec3::zero(),
            viewport_v: Vec3::zero(),
            focal_length: zero,
            samples_per_pixel: 0,
            pixel_sample_scale: zero,
            max_recursive_depth: 0,
        }
    }

    /// The width of an image of the given height: the height divided by the
    /// aspect ratio (height over width), rounded toward zero, and at least
    /// one.
    pub open spec fn width_for(image_height: i32, aspect_ratio: Scalar) -> int {
        let width = truncated_quotient(
            Scalar::from_int_spec(image_height as int).over(aspect_ratio)@,
            ONE_RAW as int,
        );
        if width < 1 {
            1
        } else {
            width
        }
    }

    /// The camera for an image of the given height and aspect ratio, at the
    /// origin, looking down the negative z axis at a viewport of the given
    /// height at distance one, with the given number of samples per pixel
    /// and bound on the bounces.
    pub open spec fn configured(
        image_height: i32,
        aspect_ratio: Scalar,
        viewport_height: Scalar,
        samples_per_pixel: i32,
        max_recursive_depth: i32,
    ) -> Camera {
        let image_width = Camera::width_for(image_height, aspect_ratio) as i32;
        let zero = Scalar { raw: 0 };
        let two = Scalar::from_int_spec(2);
        let focal_length = Scalar::from_int_spec(1);
        let viewport_width = viewport_height.times(Scalar::from_int_spec(image_width as int)).over(
            Scalar::from_int_spec(image_height as int),
        );
        let viewport_u = Vec3 { x: viewport_width, y: zero, z: zero };
        let viewport_v = Vec3 { x: zero, y: viewport_height.negated(), z: zero };
        let pixel_delta_u = viewport_u.divided(Scalar::from_int_spec(image_width as int));
        let pixel_delta_v = viewport_v.divided(Scalar::from_int_spec(image_height as int));
        let camera_center = Vec3::zero();
        let viewport_upper_left = camera_center.minus(
            Vec3 { x: zero, y: zero, z: focal_length },
        ).minus(viewport_u.divided(two)).minus(viewport_v.divided(two));
        let pixel00_loc = viewport_upper_left.plus(
            pixel_delta_u.plus(pixel_delta_v).scaled(Scalar { raw: HALF_RAW }),
        );
        Camera {
            image_height,
            image_width,
            camera_center,
            pixel00_loc,
            pixel_delta_u,
            pixel_delta_v,
            viewport_height,
            viewport_width,
            viewport_upper_left,
            viewport_u,
            viewport_v,
            focal_length,
            samples_per_pixel,
            pixel_sample_scale: Scalar::from_int_spec(1).over(
                Scalar::from_int_spec(samples_per_pixel as int),
            ),
            max_recursive_depth,
        }
    }

    /// The camera for an image of the given height with the settings that
    /// are used unless others are given: nine sixteenths for the aspect
    /// ratio, a viewport of height two, 100 samples per pixel and rays
    /// followed through 50 bounces.
    pub open spec fn initialized(image_height: i32) -> Camera {
        Camera::configured(
            image_height,
            Scalar { raw: ASPECT_RATIO_RAW },
            Scalar::from_int_spec(2),
            DEFAULT_SAMPLES_PER_PIXEL,
            DEFAULT_MAX_DEPTH,
        )
    }

    /// The ray from the camera through the place `offset` of pixel `i`
    /// across and `j` down.
    pub open spec fn ray_through(self, i: i32, j: i32, offset: Vec3) -> Ray {
        let pixel_sample = self.pixel00_loc.plus(
            self.pixel_delta_u.scaled(Scalar::from_int_spec(i as int).plus(offset.x)),
        ).plus(self.pixel_delta_v.scaled(Scalar::from_int_spec(j as int).plus(offset.y)));
        Ray { origin: self.camera_center, direction: pixel_sample.minus(self.camera_center) }
    }

    /// Whether `c` can be the colour of one sample of pixel `i`, `j`: what a
    /// ray through some place of the pixel brings back for some unit draws.
    pub open spec fn is_sample_color<W: Hittable>(
        self,
        world: &W,
        i: i32,
        j: i32,
        c: Color,
    ) -> bool {
        exists|offset: Vec3, draws: Seq<(Vec3, Vec3)>|
            {
                &&& pixel_offset(offset)
                &&& unit_draws(draws)
                &&& c == #[trigger] shade(
                    world,
                    self.ray_through(i, j, offset),
                    self.max_recursive_depth as int,
                    draws,
                )
            }
    }

    /// Whether `c` can be the colour of pixel `i`, `j`: the sum of as many
    /// sample colours as the camera takes per pixel, times the sample scale.
    pub open spec fn is_pixel_color<W: Hittable>(
        self,
        world: &W,
        i: i32,
        j: i32,
        c: Color,
    ) -> bool {
        exists|samples: Seq<Color>|
            {
                &&& samples.len() == (if self.samples_per_pixel > 0 {
                    self.samples_per_pixel as int
                } else {
                    0
                })
                &&& forall|k: int|
                    0 <= k < samples.len() ==> self.is_sample_color(
                        world,
                        i,
                        j,
                        #[trigger] samples[k],
                    )
                &&& c == #[trigger] total(samples).scaled(self.pixel_sample_scale)
            }
    }

    /// The camera for an image of the given height, with the settings that
    /// are used unless others are given.
    pub fn new(image_height: i32) -> (camera: Camera)
        ensures
            camera == Camera::initialized(image_height),
    {
        let mut camera = Camera::default();
        camera.image_height = image_height;
        camera.initialize();
        camera
    }

    /// The camera for an image of the given height and aspect ratio (height
    /// over width), a viewport of the given height, the given number of
    /// samples per pixel and the given bound on the bounces.
    pub fn with_settings(
        image_height: i32,
        aspect_ratio: Scalar,
        viewport_height: Scalar,
        samples_per_pixel: i32,
        max_recursive_depth: i32,
    ) -> (camera: Camera)
        ensures
            camera == Camera::configured(
                image_height,
                aspect_ratio,
                viewport_height,
                samples_per_pixel,
                max_recursive_depth,
            ),
    {
        let width: i32 = (Scalar::from_int(image_height) / aspect_ratio).to_int();
        let image_width: i32 = if width < 1 {
            1
        } else {
            width
        };
        let zero = Scalar::from_raw(0);
        let two = Scalar::from_int(2);
        let focal_length = Scalar::from_int(1);
        let viewport_width = viewport_height * Scalar::from_int(image_width) / Scalar::from_int(
            image_height,
        );
        let viewport_u = Vec3::new(viewport_width, zero, zero);
        let viewport_v = Vec3::new(zero, core::ops::Neg::neg(viewport_height), zero);
        let pixel_delta_u = viewport_u / Scalar::from_int(image_width);
        let pixel_delta_v = viewport_v / Scalar::from_int(image_height);
        let camera_center = Point3::default();
        let viewport_upper_left = camera_center - Vec3::new(zero, zero, focal_length) - viewport_u
            / two - viewport_v / two;
        let pixel00_loc = viewport_upper_left + Scalar::from_raw(HALF_RAW) * (pixel_delta_u
            + pixel_delta_v);
        Camera {
            image_height,
            image_width,
            camera_center,
            pixel00_loc,
            pixel_delta_u,
            pixel_delta_v,
            viewport_height,
            viewport_width,
            viewport_upper_left,
            viewport_u,
            viewport_v,
            focal_length,
            samples_per_pixel,
            pixel_sample_scale: Scalar::from_int(1) / Scalar::from_int(samples_per_pixel),
            max_recursive_depth,
        }
    }

    /// Derives every other field from the image height, with the settings
    /// that are used unless others are given.
    pub fn initialize(&mut self)
        ensures
            *final(self) == Camera::initialized(old(self).image_height),
    {
        *self = Camera::with_settings(
            self.image_height,
            Scalar::from_raw(ASPECT_RATIO_RAW),
            Scalar::from_int(2),
            DEFAULT_SAMPLES_PER_PIXEL,
            DEFAULT_MAX_DEPTH,
        );
    }

    /// A random place within a pixel.
    pub fn sample_square(&self, source: &mut RandomGenerator) -> (offset: Vec3)
        ensures
            pixel_offset(offset),
    {
        let half = Scalar::from_raw(HALF_RAW);
        let x = random_generator(source) - half;
        let y = random_generator(source) - half;
        Vec3::new(x, y, Scalar::from_raw(0))
    }

    /// The ray from the camera through the given place of pixel `i`, `j`.
    pub fn ray_at(&self, i: i32, j: i32, offset: Vec3) -> (r: Ray)
        ensures
            r == self.ray_through(i, j, offset),
    {
        let pixel_sample = self.pixel00_loc + (self.pixel_delta_u * (Scalar::from_int(i)
            + offset.x())) + (self.pixel_delta_v * (Scalar::from_int(j) + offset.y()));
        let ray_direction = pixel_sample - self.camera_center;
        Ray::new(self.camera_center, ray_direction)
    }

    /// A ray from the camera through a random place of pixel `i`, `j`.
    pub fn get_ray(&self, i: i32, j: i32, source: &mut RandomGenerator) -> (r: Ray)
        ensures
            exists|offset: Vec3|
                pixel_offset(offset) && r == #[trigger] self.ray_through(i, j, offset),
    {
        let offset = self.sample_square(source);
        self.ray_at(i, j, offset)
    }
}

impl Default for Camera {
    fn default() -> (camera: Camera)
        ensures
            camera == Camera::blank(),
    {
        let zero = Scalar::from_raw(0);
        let origin = Vec3::new(zero, zero, zero);
        Camera {
            image_height: 0,
            image_width: 0,
            camera_center: origin,
            pixel00_loc: origin,
            pixel_delta_u: origin,
            pixel_delta_v: origin,
            viewport_height: zero,
            viewport_width: zero,
            viewport_upper_left: origin,
            viewport_u: origin,
            viewport_v: origin,
            focal_length: zero,
            samples_per_pixel: 0,
            pixel_sample_scale: zero,
            max_recursive_depth: 0,
        }
    }
}

impl Camera {
    /// The colour that the ray brings back, with the draws that were made
    /// for its bounces.
    fn ray_color_drawn<W: Hittable>(
        &self,
        r: Ray,
        max_recursive_depth: i32,
        world: &W,
        source: &mut RandomGenerator,
    ) -> (out: (Color, Ghost<Seq<(Vec3, Vec3)>>))
        ensures
            unit_draws(out.1@),
            out.0 == shade(world, r, max_recursive_depth as int, out.1@),
        decreases max_recursive_depth,
    {
        if max_recursive_depth <= 0 {
            let black = Color::new(
                Scalar::from_raw(0),
                Scalar::from_raw(0),
                Scalar::from_raw(0),
            );
            return (black, Ghost(Seq::empty()));
        }
        let mut rec: HitRecord = HitRecord::default();
        let interval = Interval::new(Scalar::from_raw(SHADOW_EPSILON_RAW), infinity());
        let hit = world.hit(r, interval, &mut rec);
        match hit {
            Some(hit_record) => {
                let n = hit_record.normal();
                let on_hemisphere = Vec3::random_on_hemisphere(source, &n);
                let on_sphere = Vec3::random_unit_vector(source);
                let ghost first = choose|u: Vec3|
                    u.is_unit_sample() && on_hemisphere == #[trigger] u.toward(n);
                let bounced = scatter(&hit_record, on_hemisphere, on_sphere);
                let (inner, Ghost(rest)) = self.ray_color_drawn(
                    bounced,
                    max_recursive_depth - 1,
                    world,
                    source,
                );
                let ghost draws = seq![(first, on_sphere)] + rest;
                proof {
                    assert(draws.skip(1) =~= rest);
                    assert(draws[0] == (first, on_sphere));
                    assert(bounced == scattered(hit_record, draws[0].0, draws[0].1));
                }
                (Scalar::from_raw(HALF_RAW) * inner, Ghost(draws))
            },
            None => (sky_color(r.direction()), Ghost(Seq::empty())),
        }
    }

    /// The colour that the ray brings back when its bounces use the draws
    /// of `draws` from place `from` on.
    fn ray_color_from<W: Hittable>(
        &self,
        r: Ray,
        max_recursive_depth: i32,
        world: &W,
        draws: &Vec<(Vec3, Vec3)>,
        from: usize,
    ) -> (c: Color)
        requires
            from <= draws@.len(),
            max_recursive_depth <= draws@.len() - from,
        ensures
            c == shade(world, r, max_recursive_depth as int, draws@.skip(from as int)),
        decreases max_recursive_depth,
    {
        if max_recursive_depth <= 0 {
            return Color::new(Scalar::from_raw(0), Scalar::from_raw(0), Scalar::from_raw(0));
        }
        let mut rec: HitRecord = HitRecord::default();
        let interval = Interval::new(Scalar::from_raw(SHADOW_EPSILON_RAW), infinity());
        match world.hit(r, interval, &mut rec) {
            Some(hit_record) => {
                assert(from < draws.len());
                let n = hit_record.normal();
                let on_hemisphere = draws[from].0.turned_toward(&n);
                let bounced = scatter(&hit_record, on_hemisphere, draws[from].1);
                let inner = self.ray_color_from(
                    bounced,
                    max_recursive_depth - 1,
                    world,
                    draws,
                    from + 1,
                );
                proof {
                    let rest = draws@.skip(from as int);
                    assert(rest[0] == draws@[from as int]);
                    assert(rest.skip(1) =~= draws@.skip(from + 1));
                }
                Scalar::from_raw(HALF_RAW) * inner
            },
            None => sky_color(r.direction()),
        }
    }

    /// The colour that the ray brings back from `world` when bounce `k`
    /// scatters along the pair `draws[k]`: the first vector, turned to the
    /// side of the normal, plus the second. There is a pair for each of the
    /// `max_recursive_depth` bounces that may come.
    pub fn ray_color_along<W: Hittable>(
        &self,
        r: Ray,
        max_recursive_depth: i32,
        world: &W,
        draws: &Vec<(Vec3, Vec3)>,
    ) -> (c: Color)
        requires
            max_recursive_depth <= draws@.len(),
        ensures
            c == shade(world, r, max_recursive_depth as int, draws@),
            c.in_unit_range(),
    {
        assert(draws@.skip(0) =~= draws@);
        proof {
            lemma_shade_in_range(world, r, max_recursive_depth as int, draws@);
        }
        self.ray_color_from(r, max_recursive_depth, world, draws, 0)
    }

    /// The colour that the ray brings back from `world`, followed through at
    /// most `max_recursive_depth` bounces: black when no bounce is left,
    /// whatever the world holds; the sky where the ray hits nothing; else
    /// half of what a randomly scattered ray brings back with one bounce less.
    /// Every channel lies between zero and one.
    pub fn ray_color<W: Hittable>(
        &self,
        r: Ray,
        max_recursive_depth: i32,
        world: &W,
        source: &mut RandomGenerator,
    ) -> (c: Color)
        ensures
            max_recursive_depth <= 0 ==> c == Color::black(),
            max_recursive_depth > 0 && world.hit_spec(r, search_interval()) is None ==> c == sky(
                r.direction,
            ) && c.at_least(HALF_RAW as int),
            max_recursive_depth > 0 && world.hit_spec(r, search_interval()) is Some
                ==> c.at_most(HALF_RAW as int),
            c.in_unit_range(),
            exists|draws: Seq<(Vec3, Vec3)>|
                unit_draws(draws) && c == #[trigger] shade(
                    world,
                    r,
                    max_recursive_depth as int,
                    draws,
                ),
    {
        let (c, Ghost(draws)) = self.ray_color_drawn(r, max_recursive_depth, world, source);
        proof {
            lemma_shade_in_range(world, r, max_recursive_depth as int, draws);
            lemma_sky_in_range(r.direction);
        }
        c
    }

    /// The colour of one sample of pixel `i`, `j`.
    pub fn sample_color<W: Hittable>(
        &self,
        i: i32,
        j: i32,
        world: &W,
        source: &mut RandomGenerator,
    ) -> (c: Color)
        ensures
            self.is_sample_color(world, i, j, c),
    {
        let offset = self.sample_square(source);
        let r = self.ray_at(i, j, offset);
        let (c, Ghost(draws)) = self.ray_color_drawn(
            r,
            self.max_recursive_depth,
            world,
            source,
        );
        assert(c == shade(
            world,
            self.ray_through(i, j, offset),
            self.max_recursive_depth as int,
            draws,
        ));
        c
    }

    /// The colour of pixel `i`, `j`: the scaled sum of its samples.
    pub fn pixel_color<W: Hittable>(
        &self,
        i: i32,
        j: i32,
        world: &W,
        source: &mut RandomGenerator,
    ) -> (c: Color)
        ensures
            self.is_pixel_color(world, i, j, c),
    {
        let mut pixel_color = Color::new(
            Scalar::from_raw(0),
            Scalar::from_raw(0),
            Scalar::from_raw(0),
        );
        let ghost mut samples: Seq<Color> = Seq::empty();
        let mut sample: i32 = 0;
        while sample < self.samples_per_pixel
            invariant
                sample == 0 || 0 < sample <= self.samples_per_pixel,
                samples.len() == sample,
                forall|k: int|
                    0 <= k < samples.len() ==> self.is_sample_color(
                        world,
                        i,
                        j,
                        #[trigger] samples[k],
                    ),
                pixel_color == total(samples),
            decreases self.samples_per_pixel - sample,
        {
            let c = self.sample_color(i, j, world, source);
            proof {
                let ghost longer = samples.push(c);
                assert(longer.drop_last() =~= samples);
                samples = longer;
            }
            pixel_color = pixel_color + c;
            sample = sample + 1;
        }
        let averaged = self.pixel_sample_scale * pixel_color;
        assert(averaged == total(samples).scaled(self.pixel_sample_scale));
        averaged
    }

    /// The image: the colours of its pixels row by row from the top, each
    /// row from the left, so that pixel `i` across and `j` down stands at
    /// place `j * image_width + i`.
    pub fn render<W: Hittable>(&self, world: &W, source: &mut RandomGenerator) -> (pixels: Vec<
        Color,
    >)
        ensures
            pixels@.len() == pixel_count(self.image_width, self.image_height),
            forall|k: int|
                0 <= k < pixels@.len() ==> self.is_pixel_color(
                    world,
                    (k % self.image_width as int) as i32,
                    (k / self.image_width as int) as i32,
                    #[trigger] pixels@[k],
                ),
    {
        let mut pixels: Vec<Color> = Vec::new();
        if self.image_width <= 0 {
            return pixels;
        }
        let mut j: i32 = 0;
        while j < self.image_height
            invariant
                j == 0 || 0 < j <= self.image_height,
                self.image_width > 0,
                pixels@.len() == j * self.image_width,
                forall|k: int|
                    0 <= k < pixels@.len() ==> self.is_pixel_color(
                        world,
                        (k % self.image_width as int) as i32,
                        (k / self.image_width as int) as i32,
                        #[trigger] pixels@[k],
                    ),
            decreases self.image_height - j,
        {
            let mut i: i32 = 0;
            while i < self.image_width
                invariant
                    0 <= i <= self.image_width,
                    0 <= j < self.image_height,
                    pixels@.len() == j * self.image_width + i,
                    forall|k: int|
                        0 <= k < pixels@.len() ==> self.is_pixel_color(
                            world,
                            (k % self.image_width as int) as i32,
                            (k / self.image_width as int) as i32,
                            #[trigger] pixels@[k],
                        ),
                decreases self.image_width - i,
            {
                let c = self.pixel_color(i, j, world, source);
                proof {
                    lemma_fundamental_div_mod_converse(
                        j * self.image_width + i,
                        self.image_width as int,
                        j as int,
                        i as int,
                    );
                }
                pixels.push(c);
                i = i + 1;
            }
            proof {
                assert((j + 1) * self.image_width == j * self.image_width + self.image_width)
                    by (nonlinear_arith);
            }
            j = j + 1;
        }
        proof {
            assert(j * self.image_width == pixel_count(self.image_width, self.image_height))
                by (nonlinear_arith)
                requires
                    self.image_width > 0,
                    j == 0 || 0 < j <= self.image_height,
                    j >= self.image_height,
                    pixel_count(self.image_width, self.image_height) == (if self.image_height > 0 {
                        self.image_width as int * self.image_height as int
                    } else {
                        0
                    }),
            ;
        }
        pixels
    }
}

/// The number of pixels of an image: none unless both sides are positive.
pub open spec fn pixel_count(image_width: i32, image_height: i32) -> int {
    if image_width > 0 && image_height > 0 {
        image_width as int * image_height as int
    } else {
        0
    }
}

} // verus!
