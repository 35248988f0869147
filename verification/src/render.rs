//! The pixel loop: jittered samples through the camera, averaged per pixel
//! and packed into a frame buffer of 32-bit colours.

use crate::camera::Camera;
use crate::fixed::{quotient, saturate, Fixed, ONE_RAW};
use crate::random::random_unit;
use crate::vec3::Vec3;
use crate::world::World;
use rand::rngs::StdRng;
use vstd::arithmetic::div_mod::lemma_fundamental_div_mod_converse;
use vstd::prelude::*;

verus! {

/// Samples per pixel.
pub const RAY_SAMPLES: u32 = 200;

/// Bounces after which a ray is taken to be absorbed.
pub const MAX_DEPTH: u32 = 50;

/// The raw value of the least ray parameter that counts as a hit, one part
/// in ten thousand: it keeps a bounced ray from hitting the surface it left.
pub const T_MIN_RAW: i64 = 429496;

/// The packed colour `(a << 24) | (r << 16) | (g << 8) | b`.
pub open spec fn argb_spec(r: u32, g: u32, b: u32, a: u32) -> u32 {
    a << 24 | r << 16 | g << 8 | b
}

/// The 8-bit value of a colour channel: the channel clamped to `[0, 1]`,
/// times 255, rounded toward zero.
pub open spec fn channel_spec(c: int) -> int {
    if c <= 0 {
        0
    } else if c >= ONE_RAW {
        255
    } else {
        (c * 255) / (ONE_RAW as int)
    }
}

/// The opaque packed colour of `color`.
pub open spec fn packed_spec(color: Vec3) -> u32 {
    argb_spec(
        channel_spec(color.x@) as u32,
        channel_spec(color.y@) as u32,
        channel_spec(color.z@) as u32,
        255,
    )
}

/// The horizontal viewport coordinate of a sample in column `x` of `width`
/// columns, displaced by `jitter`: `(x + jitter) / width`.
pub open spec fn sample_u(x: int, width: int, jitter: Fixed) -> Fixed {
    Fixed::saturating(quotient(saturate(saturate(x * ONE_RAW) + jitter@), saturate(width * ONE_RAW)))
}

/// The vertical viewport coordinate of a sample in row `y` of `height` rows,
/// displaced by `jitter`: `1 - (y + jitter) / height`, so that row 0 is the
/// top of the image.
pub open spec fn sample_v(y: int, height: int, jitter: Fixed) -> Fixed {
    Fixed::saturating(ONE_RAW - sample_u(y, height, jitter)@)
}

/// A sample of a pixel of the image lies in the image: the quotient of
/// `x + jitter` by `width` is in `[0, 1)` for a column `x` below `width` and a
/// jitter in `[0, 1)`.
pub proof fn lemma_sample_in_unit_interval(x: int, width: int, jitter: int)
    requires
        0 <= x < width < 0x8000_0000,
        0 <= jitter < ONE_RAW,
    ensures
        0 <= quotient(saturate(saturate(x * ONE_RAW) + jitter), saturate(width * ONE_RAW)) < ONE_RAW,
{
    let n = x * 0x1_0000_0000 + jitter;
    let d = width * 0x1_0000_0000;
    assert(x * ONE_RAW == x * 0x1_0000_0000 && width * ONE_RAW == d) by (nonlinear_arith)
        requires
            ONE_RAW == 0x1_0000_0000,
            d == width * 0x1_0000_0000,
    ;
    assert(n * ONE_RAW == n * 0x1_0000_0000) by (nonlinear_arith)
        requires
            ONE_RAW == 0x1_0000_0000,
    ;
    let m = n * 0x1_0000_0000;
    assert(0 <= m / d < 0x1_0000_0000) by (nonlinear_arith)
        requires
            0 <= n < d,
            m == n * 0x1_0000_0000,
    ;
}

/// The two displacements of a sample within its pixel: scalars in `[0, 1)`.
pub open spec fn is_jitter(jx: Fixed, jy: Fixed) -> bool {
    0 <= jx@ < ONE_RAW && 0 <= jy@ < ONE_RAW
}

/// The camera that `render` looks through: the eye at the origin, the
/// viewport four wide and two high, one unit in front of it.
pub open spec fn default_camera_spec() -> Camera {
    Camera::with(
        Vec3::saturating(0, 0, 0),
        Vec3::saturating(-2 * ONE_RAW, -ONE_RAW, -ONE_RAW),
        Vec3::saturating(4 * ONE_RAW, 0, 0),
        Vec3::saturating(0, 2 * ONE_RAW, 0),
    )
}

/// `color` is a colour that one sample of the pixel `(x, y)` may give: what
/// the camera ray through the pixel, displaced by some jitter, may gather.
pub open spec fn is_sample(
    world: &World,
    cam: &Camera,
    x: int,
    y: int,
    width: int,
    height: int,
    color: Vec3,
) -> bool {
    exists|jx: Fixed, jy: Fixed| #[trigger]
        is_jitter(jx, jy) && world.is_trace_outcome(
            cam.ray_spec(sample_u(x, width, jx), sample_v(y, height, jy)),
            Fixed::saturating(T_MIN_RAW as int),
            Fixed::saturating(i64::MAX as int),
            MAX_DEPTH as nat,
            color,
        )
}

/// `sum` is a sum that `n` samples of the pixel `(x, y)` may add up to.
pub open spec fn is_sample_sum(
    world: &World,
    cam: &Camera,
    x: int,
    y: int,
    width: int,
    height: int,
    n: nat,
    sum: Vec3,
) -> bool
    decreases n,
{
    if n == 0 {
        sum == Vec3::zeroes_spec()
    } else {
        exists|before: Vec3, color: Vec3| #[trigger]
            before.plus(color) == sum && is_sample_sum(
                world,
                cam,
                x,
                y,
                width,
                height,
                (n - 1) as nat,
                before,
            ) && is_sample(world, cam, x, y, width, height, color)
    }
}

/// `packed` is a value that the pixel `(x, y)` may get: the packed colour of
/// the average of `RAY_SAMPLES` samples.
pub open spec fn is_pixel(
    world: &World,
    cam: &Camera,
    x: int,
    y: int,
    width: int,
    height: int,
    packed: u32,
) -> bool {
    exists|sum: Vec3| #[trigger]
        is_sample_sum(world, cam, x, y, width, height, RAY_SAMPLES as nat, sum) && packed
            == packed_spec(sum.divided(Fixed::saturating(RAY_SAMPLES * ONE_RAW)))
}

/// `after` is a rendering of the scene into the buffer `before`: as long as
/// `before`; beyond the first `width * height` entries equal to it; and
/// entry `i` of the image a value that the pixel in column `i % width` of
/// row `i / width` may get through the default camera.
pub open spec fn is_rendering(
    world: &World,
    width: int,
    height: int,
    before: Seq<u32>,
    after: Seq<u32>,
) -> bool {
    &&& after.len() == before.len()
    &&& forall|i: int| width * height <= i < after.len() ==> after[i] == before[i]
    &&& forall|i: int|
        0 <= i < width * height ==> (#[trigger] after[i]) >> 24 == 255 && is_pixel(
            world,
            &default_camera_spec(),
            i % width,
            i / width,
            width,
            height,
            after[i],
        )
}

/// Packs four channels into one 32-bit colour, alpha in the top byte, then
/// red, green and blue.
pub fn to_argb(r: u32, g: u32, b: u32, a: u32) -> (packed: u32)
    ensures
        packed == argb_spec(r, g, b, a),
        r <= 255 && g <= 255 && b <= 255 && a <= 255 ==> packed == a * 0x100_0000 + r * 0x1_0000 + g
            * 0x100 + b,
{
    assert(r <= 255 && g <= 255 && b <= 255 && a <= 255 ==> (a << 24 | r << 16 | g << 8 | b) == a
        * 0x100_0000 + r * 0x1_0000 + g * 0x100 + b) by (bit_vector);
    a << 24 | r << 16 | g << 8 | b
}

/// The 8-bit value of one colour channel, clamped to `[0, 1]` first.
pub fn channel(c: Fixed) -> (r: u32)
    ensures
        r == channel_spec(c@),
        r <= 255,
{
    if c.raw <= 0 {
        0
    } else if c.raw >= ONE_RAW {
        255
    } else {
        ((c.raw as u64 * 255) / (ONE_RAW as u64)) as u32
    }
}

/// The opaque packed colour of `vector`, whose components are read as red,
/// green and blue and clamped to `[0, 1]`.
pub fn to_argb_from_vec3(vector: Vec3) -> (packed: u32)
    ensures
        packed == packed_spec(vector),
        packed == 0xff00_0000 + channel_spec(vector.x@) * 0x1_0000 + channel_spec(vector.y@) * 0x100
            + channel_spec(vector.z@),
        packed >> 24 == 255,
{
    let r: u32 = channel(vector.x);
    let g: u32 = channel(vector.y);
    let b: u32 = channel(vector.z);
    let packed = to_argb(r, g, b, 255);
    assert(packed >= 0xff00_0000 ==> packed >> 24 == 255) by (bit_vector);
    packed
}

/// The viewport coordinates of a sample of the pixel `(x, y)`, displaced
/// within the pixel by the jitter.
pub fn sample_coordinates(x: u32, y: u32, width: u32, height: u32, jx: Fixed, jy: Fixed) -> (uv: (
    Fixed,
    Fixed,
))
    ensures
        uv.0 == sample_u(x as int, width as int, jx),
        uv.1 == sample_v(y as int, height as int, jy),
        x < width < 0x8000_0000 && 0 <= jx@ < ONE_RAW ==> 0 <= uv.0@ < ONE_RAW,
        y < height < 0x8000_0000 && 0 <= jy@ < ONE_RAW ==> 0 < uv.1@ <= ONE_RAW,
{
    proof {
        if x < width < 0x8000_0000 && 0 <= jx@ < ONE_RAW {
            lemma_sample_in_unit_interval(x as int, width as int, jx@);
        }
        if y < height < 0x8000_0000 && 0 <= jy@ < ONE_RAW {
            lemma_sample_in_unit_interval(y as int, height as int, jy@);
        }
    }
    let u = (Fixed::from_index(x) + jx) / Fixed::from_index(width);
    let v = Fixed::one() - (Fixed::from_index(y) + jy) / Fixed::from_index(height);
    (u, v)
}

/// The camera that `render` looks through.
pub fn default_camera() -> (cam: Camera)
    ensures
        cam == default_camera_spec(),
{
    Camera::new(
        Vec3::zeroes(),
        Vec3::new(Fixed::from_int(-2), Fixed::from_int(-1), Fixed::from_int(-1)),
        Vec3::new(Fixed::from_int(4), Fixed::from_int(0), Fixed::from_int(0)),
        Vec3::new(Fixed::from_int(0), Fixed::from_int(2), Fixed::from_int(0)),
    )
}

/// The value of the pixel `(x, y)`: `RAY_SAMPLES` jittered samples, traced
/// through the scene, averaged and packed.
pub fn render_pixel(
    world: &World,
    cam: &Camera,
    x: u32,
    y: u32,
    width: u32,
    height: u32,
    rng: &mut StdRng,
) -> (packed: u32)
    ensures
        is_pixel(world, cam, x as int, y as int, width as int, height as int, packed),
        packed >> 24 == 255,
{
    let mut color = Vec3::zeroes();
    let mut i: u32 = 0;
    while i < RAY_SAMPLES
        invariant
            i <= RAY_SAMPLES,
            is_sample_sum(world, cam, x as int, y as int, width as int, height as int, i as nat, color),
        decreases RAY_SAMPLES - i,
    {
        let jx = random_unit(rng);
        let jy = random_unit(rng);
        let (u, v) = sample_coordinates(x, y, width, height, jx, jy);
        let ray = cam.get_ray(u, v);
        let sample = world.trace(
            &ray,
            Fixed::from_raw(T_MIN_RAW),
            Fixed::max_value(),
            rng,
            MAX_DEPTH,
        );
        let ghost before = color;
        color = color + sample;
        proof {
            assert(is_jitter(jx, jy));
            assert(is_sample(world, cam, x as int, y as int, width as int, height as int, sample));
            assert(before.plus(sample) == color);
        }
        i = i + 1;
    }
    let average = color / Fixed::from_index(RAY_SAMPLES);
    to_argb_from_vec3(average)
}

/// Fills the first `width * height` entries of `buffer`, row by row from the
/// top, with the pixels of the scene seen through the default camera. The
/// pixel in column `x` of row `y` stands at index `y * width + x`; every
/// pixel is opaque. Entries beyond the image are left as they were. The
/// random numbers are drawn from `rng`.
pub fn render(
    mut buffer: Vec<u32>,
    width: u32,
    height: u32,
    world: &World,
    rng: &mut StdRng,
) -> (r: Vec<u32>)
    requires
        buffer@.len() >= width * height,
    ensures
        is_rendering(world, width as int, height as int, buffer@, r@),
{
    let ghost initial = buffer@;
    let len = buffer.len();
    let cam = default_camera();
    let mut pixel: usize = 0;
    let mut y: u32 = 0;
    while y < height
        invariant
            y <= height,
            pixel == y * width,
            cam == default_camera_spec(),
            buffer@.len() == initial.len() == len,
            initial.len() >= width * height,
            forall|i: int| pixel <= i < buffer@.len() ==> buffer@[i] == initial[i],
            forall|i: int|
                0 <= i < pixel ==> (#[trigger] buffer@[i]) >> 24 == 255 && is_pixel(
                    world,
                    &cam,
                    i % (width as int),
                    i / (width as int),
                    width as int,
                    height as int,
                    buffer@[i],
                ),
        decreases height - y,
    {
        let mut x: u32 = 0;
        while x < width
            invariant
                x <= width,
                y < height,
                pixel == y * width + x,
                cam == default_camera_spec(),
                buffer@.len() == initial.len() == len,
                initial.len() >= width * height,
                forall|i: int| pixel <= i < buffer@.len() ==> buffer@[i] == initial[i],
                forall|i: int|
                    0 <= i < pixel ==> (#[trigger] buffer@[i]) >> 24 == 255 && is_pixel(
                        world,
                        &cam,
                        i % (width as int),
                        i / (width as int),
                        width as int,
                        height as int,
                        buffer@[i],
                    ),
            decreases width - x,
        {
            proof {
                assert(y * width + x < width * height) by (nonlinear_arith)
                    requires
                        0 <= x < width,
                        0 <= y < height,
                ;
                lemma_fundamental_div_mod_converse(pixel as int, width as int, y as int, x as int);
            }
            let packed = render_pixel(world, &cam, x, y, width, height, rng);
            buffer.set(pixel, packed);
            pixel = pixel + 1;
            x = x + 1;
        }
        proof {
            assert((y + 1) * width == y * width + width) by (nonlinear_arith);
        }
        y = y + 1;
    }
    proof {
        assert(y * width == width * height) by (nonlinear_arith)
            requires
                y == height,
        ;
    }
    buffer
}

} // verus!
