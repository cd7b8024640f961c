//! The recursive colour integrator and the textual image writer.
//!
//! `ray_colour` resolves the nearest hit, asks the surface material to
//! scatter, and recurses on the scattered ray up to a depth bound,
//! multiplying attenuations; a missed ray falls back to the sky gradient.
//! The writer averages the samples of each pixel, applies square-root
//! gamma, and emits the plain-text image.

use vstd::prelude::*;
use crate::fixed::{
    SCALE, div_scaled, sqrt_scaled, fdiv, fsqrt, lemma_ds_fit, lemma_ms_scale_le,
    lemma_bounded_div,
};
use crate::linear_algebra::{Vec3, Colour, Ray, V3, vadd, vmul, vscale, vunit, T_LIMIT};
use crate::random::{Rng, rand, rand_spec, next_state};
use crate::geometry::{HittableList, SphereM, ray_ok, ray_ok_check, list_wf, list_hit_spec};
use crate::materials::{MaterialKind, colour_wf, scatter_spec};
use crate::camera::{Camera, camera_wf, get_ray_spec};

verus! {

/// Lower hit bound used by the integrator: just above zero, suppressing
/// self-intersection of a ray with the surface it starts on.
pub const HIT_EPSILON: i64 = 65;

/// Ceiling applied to a channel before quantisation: just under one.
pub const CHANNEL_CEILING: i64 = 65470;

/// A value confined to `[min, max]`.
pub open spec fn clamp_spec(x: int, min: int, max: int) -> int {
    if x < min {
        min
    } else if x > max {
        max
    } else {
        x
    }
}

/// Confines `x` to `[min, max]`.
pub fn clamp(x: i64, min: i64, max: i64) -> (r: i64)
    requires
        min <= max,
    ensures
        r == clamp_spec(x as int, min as int, max as int),
{
    if x < min {
        min
    } else if x > max {
        max
    } else {
        x
    }
}

/// The background a missed ray sees: white blended toward a pale blue by
/// the vertical component of the unit direction, remapped to `[0, 1]`.
pub open spec fn sky_spec(dir: V3) -> V3 {
    let unit = vunit(dir);
    let uy = clamp_spec(unit.1, -(SCALE as int), SCALE as int);
    let t = (uy + SCALE as int) / 2;
    vadd(
        vscale((SCALE as int, SCALE as int, SCALE as int), SCALE as int - t),
        vscale((32768int, 45875int, SCALE as int), t),
    )
}

/// What the integrator returns for one ray, and the state after it: black
/// at exhausted depth; on a hit, the scattered recursion weighted by the
/// attenuation (black when absorbed or when the scattered ray leaves the
/// grid); the sky gradient on a miss.
pub open spec fn ray_colour_spec(ray: (V3, V3), objs: Seq<SphereM>, depth: nat, s: u64) -> (
    V3,
    u64,
)
    decreases depth,
{
    if depth == 0 {
        ((0int, 0int, 0int), s)
    } else {
        match list_hit_spec(objs, ray, HIT_EPSILON as int, T_LIMIT as int) {
            Option::Some(h) => {
                let (sc, s1) = scatter_spec(h.4, ray, h, s);
                match sc {
                    Option::Some(scat) => if ray_ok(scat.1) {
                        let (rec, s2) = ray_colour_spec(scat.1, objs, (depth - 1) as nat, s1);
                        (vmul(scat.0, rec), s2)
                    } else {
                        ((0int, 0int, 0int), s1)
                    },
                    Option::None => ((0int, 0int, 0int), s1),
                }
            },
            Option::None => (sky_spec(ray.1), s),
        }
    }
}

/// The colour one ray contributes: the depth-bounded recursive estimate of
/// the light transported back along it.
pub fn ray_colour(ray: Ray, world: &HittableList, depth: usize, rng: &mut Rng) -> (c: Colour)
    requires
        list_wf(world@),
        ray_ok(ray@),
    ensures
        (c@, final(rng)@) == ray_colour_spec(ray@, world@, depth as nat, old(rng)@),
        colour_wf(c@),
        depth == 0 ==> c@ == (0int, 0int, 0int),
        depth > 0 && world@.len() == 0 ==> c@ == sky_spec(ray@.1) && final(rng)@ == old(rng)@,
    decreases depth,
{
    if depth == 0 {
        return Vec3::new(0, 0, 0);
    }
    if let Option::Some(record) = HittableList::hit(world, ray, HIT_EPSILON, T_LIMIT) {
        if let Option::Some(scattered_ray) = MaterialKind::scatter(
            &record.material,
            &ray,
            &record,
            rng,
        ) {
            if ray_ok_check(&scattered_ray.ray) {
                let rec = ray_colour(scattered_ray.ray, world, depth - 1, rng);
                proof {
                    lemma_ms_scale_le(scattered_ray@.0.0, rec@.0);
                    lemma_ms_scale_le(scattered_ray@.0.1, rec@.1);
                    lemma_ms_scale_le(scattered_ray@.0.2, rec@.2);
                }
                return scattered_ray.attenuation.mul(rec);
            }
            return Vec3::new(0, 0, 0);
        }
        return Vec3::new(0, 0, 0);
    }
    let unit_direction = ray.direction.unit_vector();
    let uy = clamp(unit_direction.y(), -SCALE, SCALE);
    let t = ((uy + SCALE) as u64 / 2) as i64;
    proof {
        lemma_ms_scale_le(65536, 65536 - t as int);
        lemma_ms_scale_le(32768, t as int);
        lemma_ms_scale_le(45875, t as int);
        lemma_ms_scale_le(65536, t as int);
    }
    let white = Vec3::new(SCALE, SCALE, SCALE);
    let blue = Vec3::new(32768, 45875, SCALE);
    white.scale(SCALE - t).add(blue.scale(t))
}

/// A channel value ready for output: the accumulated channel averaged over
/// the samples, gamma-corrected by a square root, capped just under one,
/// and quantised to `[0, 255]`.
pub open spec fn quantise_spec(acc: int, samples: int) -> int {
    let mean = acc / samples;
    let root = sqrt_scaled(mean);
    let capped = clamp_spec(root, 0, CHANNEL_CEILING as int);
    (capped * 256) / (SCALE as int)
}

/// Quantised channels always land in `[0, 255]`.
pub proof fn lemma_quantise_range(acc: int, samples: int)
    requires
        acc >= 0,
        samples >= 1,
    ensures
        0 <= quantise_spec(acc, samples) <= 255,
{
    let capped = clamp_spec(sqrt_scaled(acc / samples), 0, CHANNEL_CEILING as int);
    vstd::arithmetic::div_mod::lemma_div_pos_is_pos(capped * 256, 65536);
    vstd::arithmetic::div_mod::lemma_div_is_ordered(capped * 256, 16760320, 65536);
    vstd::arithmetic::div_mod::lemma_fundamental_div_mod_converse(16760320, 65536, 255, 48640);
}

/// Quantises one accumulated channel.
pub fn quantise(acc: i64, samples: u32) -> (r: u32)
    requires
        0 <= acc <= 0xffff_ffff_ffff,
        samples >= 1,
    ensures
        r == quantise_spec(acc as int, samples as int),
        r <= 255,
{
    let mean = ((acc as u64) / (samples as u64)) as i64;
    let root = fsqrt(mean);
    let capped = clamp(root, 0, CHANNEL_CEILING);
    proof {
        lemma_quantise_range(acc as int, samples as int);
    }
    (((capped as u64) * 256) / 65536) as u32
}

/// The decimal digits of a natural number, most significant first.
pub open spec fn dec_spec(n: nat) -> Seq<u8>
    decreases n,
{
    if n < 10 {
        seq![(48 + n) as u8]
    } else {
        dec_spec(n / 10) + seq![(48 + n % 10) as u8]
    }
}

/// Appends the decimal digits of `n` (below ten thousand).
pub fn push_decimal(out: &mut Vec<u8>, n: u32)
    requires
        n < 10000,
    ensures
        final(out)@ == old(out)@ + dec_spec(n as nat),
{
    proof {
        reveal_with_fuel(dec_spec, 5);
        vstd::arithmetic::div_mod::lemma_div_denominator(n as int, 10, 10);
        vstd::arithmetic::div_mod::lemma_div_denominator(n as int, 100, 10);
        vstd::arithmetic::div_mod::lemma_div_denominator(n as int, 10, 100);
    }
    if n >= 1000 {
        out.push(48 + (n / 1000) as u8);
    }
    if n >= 100 {
        out.push(48 + ((n / 100) % 10) as u8);
    }
    if n >= 10 {
        out.push(48 + ((n / 10) % 10) as u8);
    }
    out.push(48 + (n % 10) as u8);
    proof {
        assert(final(out)@ =~= old(out)@ + dec_spec(n as nat));
    }
}

/// The text line of one pixel: the three quantised channels separated by
/// spaces, ended by a newline.
pub open spec fn colour_line_spec(c: V3, samples: int) -> Seq<u8> {
    dec_spec(quantise_spec(c.0, samples) as nat) + seq![32u8] + dec_spec(
        quantise_spec(c.1, samples) as nat,
    ) + seq![32u8] + dec_spec(quantise_spec(c.2, samples) as nat) + seq![10u8]
}

/// Appends the text line of one pixel, averaging its accumulated colour
/// over the samples.
pub fn write_colour(pixel_colour: &Colour, samples_per_pixel: u32, out: &mut Vec<u8>)
    requires
        samples_per_pixel >= 1,
        0 <= pixel_colour@.0 <= 0xffff_ffff_ffff,
        0 <= pixel_colour@.1 <= 0xffff_ffff_ffff,
        0 <= pixel_colour@.2 <= 0xffff_ffff_ffff,
    ensures
        final(out)@ == old(out)@ + colour_line_spec(pixel_colour@, samples_per_pixel as int),
{
    let red = quantise(pixel_colour.x(), samples_per_pixel);
    let green = quantise(pixel_colour.y(), samples_per_pixel);
    let blue = quantise(pixel_colour.z(), samples_per_pixel);
    push_decimal(out, red);
    out.push(32);
    push_decimal(out, green);
    out.push(32);
    push_decimal(out, blue);
    out.push(10);
    proof {
        assert(final(out)@ =~= old(out)@ + colour_line_spec(
            pixel_colour@,
            samples_per_pixel as int,
        ));
    }
}

/// One anti-aliasing sample of a pixel: the image-plane coordinates are
/// the pixel indices jittered by one draw each, and the camera ray is
/// traced when it is usable.
pub open spec fn sample_spec(
    cam: Camera,
    objs: Seq<SphereM>,
    col: int,
    row: int,
    w: int,
    h: int,
    depth: nat,
    s: u64,
) -> (V3, u64) {
    let sc = SCALE as int;
    let uf = rand_spec(s, 0, sc);
    let s1 = next_state(s);
    let vf = rand_spec(s1, 0, sc);
    let s2 = next_state(s1);
    let u = div_scaled(col * sc + uf, (w - 1) * sc);
    let v = div_scaled(row * sc + vf, (h - 1) * sc);
    let (ray, s3) = get_ray_spec(cam, u, v, s2);
    if ray_ok(ray) {
        ray_colour_spec(ray, objs, depth, s3)
    } else {
        ((0int, 0int, 0int), s3)
    }
}

/// The sum of `n` samples of a pixel on top of `acc`.
pub open spec fn samples_spec(
    cam: Camera,
    objs: Seq<SphereM>,
    col: int,
    row: int,
    w: int,
    h: int,
    depth: nat,
    n: nat,
    s: u64,
    acc: V3,
) -> (V3, u64)
    decreases n,
{
    if n == 0 {
        (acc, s)
    } else {
        let (c, s1) = sample_spec(cam, objs, col, row, w, h, depth, s);
        samples_spec(cam, objs, col, row, w, h, depth, (n - 1) as nat, s1, vadd(acc, c))
    }
}

/// The accumulated pixels of one scanline from column `col` on.
pub open spec fn cols_spec(
    cam: Camera,
    objs: Seq<SphereM>,
    col: int,
    row: int,
    w: int,
    h: int,
    depth: nat,
    samples: nat,
    s: u64,
) -> (Seq<V3>, u64)
    decreases w - col,
{
    if col < 0 || col >= w {
        (Seq::empty(), s)
    } else {
        let (px, s1) = samples_spec(cam, objs, col, row, w, h, depth, samples, s, (0int, 0int, 0int));
        let (rest, s2) = cols_spec(cam, objs, col + 1, row, w, h, depth, samples, s1);
        (seq![px] + rest, s2)
    }
}

/// The accumulated pixels of the scanlines from `row` down to the bottom,
/// in emission order.
pub open spec fn rows_spec(
    cam: Camera,
    objs: Seq<SphereM>,
    row: int,
    w: int,
    h: int,
    depth: nat,
    samples: nat,
    s: u64,
) -> (Seq<V3>, u64)
    decreases row + 1,
{
    if row < 0 {
        (Seq::empty(), s)
    } else {
        let (rowpix, s1) = cols_spec(cam, objs, 0, row, w, h, depth, samples, s);
        let (rest, s2) = rows_spec(cam, objs, row - 1, w, h, depth, samples, s1);
        (rowpix + rest, s2)
    }
}

/// Every accumulated pixel of the image, top scanline first.
pub open spec fn pixel_grid_spec(
    cam: Camera,
    objs: Seq<SphereM>,
    w: int,
    h: int,
    depth: nat,
    samples: nat,
    s: u64,
) -> (Seq<V3>, u64) {
    rows_spec(cam, objs, h - 1, w, h, depth, samples, s)
}

/// The text of all pixel lines, in order.
pub open spec fn lines_spec(pixels: Seq<V3>, samples: int) -> Seq<u8>
    decreases pixels.len(),
{
    if pixels.len() == 0 {
        Seq::empty()
    } else {
        colour_line_spec(pixels[0], samples) + lines_spec(pixels.drop_first(), samples)
    }
}

/// The image header: the magic line, the dimensions, and the maximum
/// channel value.
pub open spec fn header_spec(w: int, h: int) -> Seq<u8> {
    seq![80u8, 51u8, 10u8] + dec_spec(w as nat) + seq![32u8] + dec_spec(h as nat) + seq![10u8]
        + seq![50u8, 53u8, 53u8, 10u8]
}

/// The whole textual image: the header followed by one line per pixel.
pub open spec fn render_spec(
    cam: Camera,
    objs: Seq<SphereM>,
    w: int,
    h: int,
    depth: nat,
    samples: nat,
    s: u64,
) -> Seq<u8> {
    header_spec(w, h) + lines_spec(
        pixel_grid_spec(cam, objs, w, h, depth, samples, s).0,
        samples as int,
    )
}

/// The models of a vector of stored colours.
pub open spec fn pixel_models(s: Seq<Vec3>) -> Seq<V3> {
    s.map_values(|c: Vec3| c@)
}

/// Appending a pixel appends its line.
proof fn lemma_lines_snoc(p: Seq<V3>, x: V3, samples: int)
    ensures
        lines_spec(p.push(x), samples) == lines_spec(p, samples) + colour_line_spec(x, samples),
    decreases p.len(),
{
    let line = colour_line_spec(x, samples);
    assert(p.push(x).len() == p.len() + 1);
    assert(lines_spec(p.push(x), samples) == colour_line_spec(p.push(x)[0], samples) + lines_spec(
        p.push(x).drop_first(),
        samples,
    ));
    if p.len() == 0 {
        assert(p.push(x).drop_first() =~= Seq::<V3>::empty());
        assert(p.push(x)[0] == x);
        assert(lines_spec(Seq::<V3>::empty(), samples) == Seq::<u8>::empty());
        assert(lines_spec(p, samples) == Seq::<u8>::empty());
        assert(line + Seq::<u8>::empty() =~= line);
        assert(Seq::<u8>::empty() + line =~= line);
    } else {
        assert(p.push(x).drop_first() =~= p.drop_first().push(x));
        assert(p.push(x)[0] == p[0]);
        lemma_lines_snoc(p.drop_first(), x, samples);
        let head = colour_line_spec(p[0], samples);
        let tail = lines_spec(p.drop_first(), samples);
        assert(lines_spec(p, samples) == head + tail);
        assert(head + (tail + line) =~= (head + tail) + line);
    }
}

/// A scanline holds one pixel per column.
proof fn lemma_cols_len(
    cam: Camera,
    objs: Seq<SphereM>,
    col: int,
    row: int,
    w: int,
    h: int,
    depth: nat,
    samples: nat,
    s: u64,
)
    requires
        0 <= col <= w,
    ensures
        cols_spec(cam, objs, col, row, w, h, depth, samples, s).0.len() == w - col,
    decreases w - col,
{
    if col < w {
        lemma_cols_len(
            cam,
            objs,
            col + 1,
            row,
            w,
            h,
            depth,
            samples,
            samples_spec(cam, objs, col, row, w, h, depth, samples, s, (0int, 0int, 0int)).1,
        );
    }
}

/// The scanlines from `row` down hold `(row + 1) * w` pixels.
proof fn lemma_rows_len(
    cam: Camera,
    objs: Seq<SphereM>,
    row: int,
    w: int,
    h: int,
    depth: nat,
    samples: nat,
    s: u64,
)
    requires
        row >= -1,
        w >= 0,
    ensures
        rows_spec(cam, objs, row, w, h, depth, samples, s).0.len() == (row + 1) * w,
    decreases row + 1,
{
    if row < 0 {
        assert((row + 1) * w == 0) by (nonlinear_arith)
            requires
                row == -1;
    } else {
        let s1 = cols_spec(cam, objs, 0, row, w, h, depth, samples, s).1;
        lemma_cols_len(cam, objs, 0, row, w, h, depth, samples, s);
        lemma_rows_len(cam, objs, row - 1, w, h, depth, samples, s1);
        assert(w + row * w == (row + 1) * w) by (nonlinear_arith);
    }
}

/// The image text is the header followed by exactly one line per pixel:
/// `width * height` of them.
pub proof fn lemma_render_shape(
    cam: Camera,
    objs: Seq<SphereM>,
    w: int,
    h: int,
    depth: nat,
    samples: nat,
    s: u64,
)
    requires
        w >= 1,
        h >= 1,
    ensures
        render_spec(cam, objs, w, h, depth, samples, s) == header_spec(w, h) + lines_spec(
            pixel_grid_spec(cam, objs, w, h, depth, samples, s).0,
            samples as int,
        ),
        pixel_grid_spec(cam, objs, w, h, depth, samples, s).0.len() == w * h,
{
    lemma_rows_len(cam, objs, h - 1, w, h, depth, samples, s);
    assert(h * w == w * h) by (nonlinear_arith);
}

/// Rendering the same scene, camera, dimensions, sampling and seed twice
/// yields byte-identical output.
pub proof fn lemma_render_deterministic(
    first: Seq<u8>,
    second: Seq<u8>,
    cam: Camera,
    objs: Seq<SphereM>,
    w: int,
    h: int,
    depth: nat,
    samples: nat,
    seed: u64,
)
    requires
        first == render_spec(cam, objs, w, h, depth, samples, seed),
        second == render_spec(cam, objs, w, h, depth, samples, seed),
    ensures
        first == second,
{
}

/// The sum of the samples of one pixel.
fn render_pixel(
    world: &HittableList,
    camera: &Camera,
    col: u32,
    row: u32,
    image_width: u32,
    image_height: u32,
    samples_per_pixel: u32,
    max_depth: usize,
    rng: &mut Rng,
) -> (px: Colour)
    requires
        list_wf(world@),
        camera_wf(*camera),
        2 <= image_width <= 4096,
        2 <= image_height <= 4096,
        1 <= samples_per_pixel <= 65536,
        col < image_width,
        row < image_height,
    ensures
        (px@, final(rng)@) == samples_spec(
            *camera,
            world@,
            col as int,
            row as int,
            image_width as int,
            image_height as int,
            max_depth as nat,
            samples_per_pixel as nat,
            old(rng)@,
            (0int, 0int, 0int),
        ),
        0 <= px@.0 <= samples_per_pixel * SCALE,
        0 <= px@.1 <= samples_per_pixel * SCALE,
        0 <= px@.2 <= samples_per_pixel * SCALE,
{
    let mut pixel_colour = Vec3::new(0, 0, 0);
    let mut k: u32 = 0;
    while k < samples_per_pixel
        invariant
            list_wf(world@),
            camera_wf(*camera),
            2 <= image_width <= 4096,
            2 <= image_height <= 4096,
            1 <= samples_per_pixel <= 65536,
            col < image_width,
            row < image_height,
            0 <= k <= samples_per_pixel,
            0 <= pixel_colour@.0 <= k * SCALE,
            0 <= pixel_colour@.1 <= k * SCALE,
            0 <= pixel_colour@.2 <= k * SCALE,
            samples_spec(
                *camera,
                world@,
                col as int,
                row as int,
                image_width as int,
                image_height as int,
                max_depth as nat,
                samples_per_pixel as nat,
                old(rng)@,
                (0int, 0int, 0int),
            ) == samples_spec(
                *camera,
                world@,
                col as int,
                row as int,
                image_width as int,
                image_height as int,
                max_depth as nat,
                (samples_per_pixel - k) as nat,
                rng@,
                pixel_colour@,
            ),
        decreases samples_per_pixel - k,
    {
        let uf = rand(rng, 0, SCALE);
        let vf = rand(rng, 0, SCALE);
        let num_u = (col as i64) * SCALE + uf;
        let den_u = ((image_width - 1) as i64) * SCALE;
        let num_v = (row as i64) * SCALE + vf;
        let den_v = ((image_height - 1) as i64) * SCALE;
        proof {
            lemma_ds_fit(num_u as int, den_u as int, 0x1000_0000, 65536);
            lemma_ds_fit(num_v as int, den_v as int, 0x1000_0000, 65536);
            lemma_bounded_div(num_u as int * 65536, den_u as int, 131072);
            lemma_bounded_div(num_v as int * 65536, den_v as int, 131072);
        }
        let u = fdiv(num_u, den_u);
        let v = fdiv(num_v, den_v);
        let r = camera.get_ray(u, v, rng);
        let contribution = if ray_ok_check(&r) {
            ray_colour(r, world, max_depth, rng)
        } else {
            Vec3::new(0, 0, 0)
        };
        pixel_colour.add_assign(contribution);
        k = k + 1;
    }
    pixel_colour
}

/// The image of the scene through the camera, as the bytes of its textual
/// form: header first, then one line per pixel, top scanline first, each
/// pixel averaged over the given number of jittered samples.
#[verifier::rlimit(80)]
pub fn render(
    world: &HittableList,
    camera: &Camera,
    image_width: u32,
    image_height: u32,
    samples_per_pixel: u32,
    max_depth: usize,
    rng: &mut Rng,
) -> (out: Vec<u8>)
    requires
        list_wf(world@),
        camera_wf(*camera),
        2 <= image_width <= 4096,
        2 <= image_height <= 4096,
        1 <= samples_per_pixel <= 65536,
    ensures
        out@ == render_spec(
            *camera,
            world@,
            image_width as int,
            image_height as int,
            max_depth as nat,
            samples_per_pixel as nat,
            old(rng)@,
        ),
        final(rng)@ == pixel_grid_spec(
            *camera,
            world@,
            image_width as int,
            image_height as int,
            max_depth as nat,
            samples_per_pixel as nat,
            old(rng)@,
        ).1,
{
    let ghost grid = pixel_grid_spec(
        *camera,
        world@,
        image_width as int,
        image_height as int,
        max_depth as nat,
        samples_per_pixel as nat,
        old(rng)@,
    );
    let mut pixels: Vec<Colour> = Vec::new();
    let mut row: u32 = image_height;
    while row > 0
        invariant
            list_wf(world@),
            camera_wf(*camera),
            2 <= image_width <= 4096,
            2 <= image_height <= 4096,
            1 <= samples_per_pixel <= 65536,
            0 <= row <= image_height,
            grid == pixel_grid_spec(
                *camera,
                world@,
                image_width as int,
                image_height as int,
                max_depth as nat,
                samples_per_pixel as nat,
                old(rng)@,
            ),
            grid.0 == pixel_models(pixels@) + rows_spec(
                *camera,
                world@,
                row as int - 1,
                image_width as int,
                image_height as int,
                max_depth as nat,
                samples_per_pixel as nat,
                rng@,
            ).0,
            grid.1 == rows_spec(
                *camera,
                world@,
                row as int - 1,
                image_width as int,
                image_height as int,
                max_depth as nat,
                samples_per_pixel as nat,
                rng@,
            ).1,
            forall|i: int|
                0 <= i < pixels@.len() ==> 0 <= #[trigger] pixels@[i]@.0
                    <= samples_per_pixel * SCALE && 0 <= pixels@[i]@.1 <= samples_per_pixel * SCALE
                    && 0 <= pixels@[i]@.2 <= samples_per_pixel * SCALE,
        decreases row,
    {
        row = row - 1;
        let ghost row_state = rng@;
        let ghost row_cols = cols_spec(
            *camera,
            world@,
            0,
            row as int,
            image_width as int,
            image_height as int,
            max_depth as nat,
            samples_per_pixel as nat,
            row_state,
        );
        let ghost pixels_at_row_start = pixels@;
        let mut col: u32 = 0;
        while col < image_width
            invariant
                list_wf(world@),
                camera_wf(*camera),
                2 <= image_width <= 4096,
                2 <= image_height <= 4096,
                1 <= samples_per_pixel <= 65536,
                row < image_height,
                0 <= col <= image_width,
                row_cols == cols_spec(
                    *camera,
                    world@,
                    0,
                    row as int,
                    image_width as int,
                    image_height as int,
                    max_depth as nat,
                    samples_per_pixel as nat,
                    row_state,
                ),
                pixels@.len() == pixels_at_row_start.len() + col,
                forall|i: int|
                    0 <= i < pixels_at_row_start.len() ==> pixels@[i]
                        == #[trigger] pixels_at_row_start[i],
                row_cols.0 == pixel_models(pixels@).skip(pixels_at_row_start.len() as int)
                    + cols_spec(
                    *camera,
                    world@,
                    col as int,
                    row as int,
                    image_width as int,
                    image_height as int,
                    max_depth as nat,
                    samples_per_pixel as nat,
                    rng@,
                ).0,
                row_cols.1 == cols_spec(
                    *camera,
                    world@,
                    col as int,
                    row as int,
                    image_width as int,
                    image_height as int,
                    max_depth as nat,
                    samples_per_pixel as nat,
                    rng@,
                ).1,
                forall|i: int|
                    0 <= i < pixels@.len() ==> 0 <= #[trigger] pixels@[i]@.0
                        <= samples_per_pixel * SCALE && 0 <= pixels@[i]@.1 <= samples_per_pixel
                        * SCALE && 0 <= pixels@[i]@.2 <= samples_per_pixel * SCALE,
            decreases image_width - col,
        {
            let ghost done_before = pixel_models(pixels@).skip(pixels_at_row_start.len() as int);
            let px = render_pixel(
                world,
                camera,
                col,
                row,
                image_width,
                image_height,
                samples_per_pixel,
                max_depth,
                rng,
            );
            pixels.push(px);
            proof {
                let rest = cols_spec(
                    *camera,
                    world@,
                    col as int + 1,
                    row as int,
                    image_width as int,
                    image_height as int,
                    max_depth as nat,
                    samples_per_pixel as nat,
                    rng@,
                ).0;
                assert(pixel_models(pixels@).skip(pixels_at_row_start.len() as int)
                    =~= done_before.push(px@));
                assert(done_before + (seq![px@] + rest) =~= done_before.push(px@) + rest);
            }
            col = col + 1;
        }
        proof {
            assert(pixel_models(pixels@).skip(pixels_at_row_start.len() as int) =~= row_cols.0);
            assert(pixel_models(pixels@) =~= pixel_models(pixels_at_row_start) + row_cols.0);
        }
    }
    let ghost w = image_width as int;
    let ghost h = image_height as int;
    proof {
        assert(grid.0 =~= pixel_models(pixels@));
    }
    let mut out: Vec<u8> = Vec::new();
    out.push(80);
    out.push(51);
    out.push(10);
    push_decimal(&mut out, image_width);
    out.push(32);
    push_decimal(&mut out, image_height);
    out.push(10);
    out.push(50);
    out.push(53);
    out.push(53);
    out.push(10);
    proof {
        assert(out@ =~= header_spec(w, h));
    }
    let n = pixels.len();
    let mut i: usize = 0;
    while i < n
        invariant
            n == pixels@.len(),
            0 <= i <= n,
            1 <= samples_per_pixel <= 65536,
            forall|j: int|
                0 <= j < pixels@.len() ==> 0 <= #[trigger] pixels@[j]@.0
                    <= samples_per_pixel * SCALE && 0 <= pixels@[j]@.1 <= samples_per_pixel * SCALE
                    && 0 <= pixels@[j]@.2 <= samples_per_pixel * SCALE,
            out@ == header_spec(w, h) + lines_spec(
                pixel_models(pixels@).take(i as int),
                samples_per_pixel as int,
            ),
        decreases n - i,
    {
        write_colour(&pixels[i], samples_per_pixel, &mut out);
        proof {
            lemma_lines_snoc(
                pixel_models(pixels@).take(i as int),
                pixels@[i as int]@,
                samples_per_pixel as int,
            );
            assert(pixel_models(pixels@).take(i as int + 1) =~= pixel_models(pixels@).take(
                i as int,
            ).push(pixels@[i as int]@));
            assert(out@ =~= header_spec(w, h) + lines_spec(
                pixel_models(pixels@).take(i as int + 1),
                samples_per_pixel as int,
            ));
        }
        i = i + 1;
    }
    proof {
        assert(pixel_models(pixels@).take(n as int) =~= pixel_models(pixels@));
        assert(out@ =~= render_spec(
            *camera,
            world@,
            w,
            h,
            max_depth as nat,
            samples_per_pixel as nat,
            old(rng)@,
        ));
    }
    out
}

} // verus!
