use vstd::prelude::*;

use crate::geometry::Vector;
use crate::numeric::div_trunc;
use crate::scene::Shader;
use crate::tga::{clamp, Tga};

verus! {

/// A grey level from 0 to 255 scaled by `intensity / 255`, intensity clamped
/// to `0..=255`, repeated into the three channels of `0xRRGGBB`.
pub open spec fn grey(level: u32, intensity: int) -> u32 {
    let c = (level * clamp(intensity, 0, 255)) / 255;
    (c + c * 256 + c * 65536) as u32
}

/// Each channel of `[r, g, b]` scaled by `intensity / 255`, intensity clamped
/// to `0..=255`, packed as `0xRRGGBB`.
pub open spec fn shaded_rgb(color: Seq<u8>, intensity: int) -> u32 {
    let i = clamp(intensity, 0, 255);
    ((color[2] * i) / 255 + ((color[1] * i) / 255) * 256 + ((color[0] * i) / 255) * 65536) as u32
}

/// The channels of a packed `0xRRGGBB` colour, red first.
pub open spec fn channels(color: u32) -> Seq<u8> {
    seq![((color / 65536) % 256) as u8, ((color / 256) % 256) as u8, (color % 256) as u8]
}

fn clamp_intensity(intensity: i64) -> (r: u32)
    ensures
        r as int == clamp(intensity as int, 0, 255),
{
    if intensity < 0 {
        0
    } else if intensity > 255 {
        255
    } else {
        intensity as u32
    }
}

/// The grey `level` (0 to 255) lit with `intensity` out of 255.
pub fn get_color(level: u32, intensity: i64) -> (r: u32)
    requires
        level <= 255,
    ensures
        r == grey(level, intensity as int),
{
    let i = clamp_intensity(intensity);
    assert(level * i <= 65025) by (nonlinear_arith)
        requires level <= 255, i <= 255;
    let c = (level * i) / 255;
    c + c * 256 + c * 65536
}

/// The colour `[r, g, b]` lit with `intensity` out of 255.
pub fn get_color_from_rgb(color: [u8; 3], intensity: i64) -> (r: u32)
    ensures
        r == shaded_rgb(color@, intensity as int),
{
    let i = clamp_intensity(intensity);
    assert(color[0] * i <= 65025 && color[1] * i <= 65025 && color[2] * i <= 65025)
        by (nonlinear_arith)
        requires color[0] <= 255, color[1] <= 255, color[2] <= 255, i <= 255;
    let mut result = (color[2] as u32 * i) / 255;
    result = result + ((color[1] as u32 * i) / 255) * 256;
    result = result + ((color[0] as u32 * i) / 255) * 65536;
    result
}

/// The channels of a packed `0xRRGGBB` colour.
pub fn unpack(color: u32) -> (r: [u8; 3])
    ensures
        r@ == channels(color),
{
    let r = [((color / 65536) % 256) as u8, ((color / 256) % 256) as u8, (color % 256) as u8];
    assert(r@ =~= channels(color));
    r
}

/// Weighted sum of three values over the sum of the weights, rounded toward
/// zero; `None` unless there are three weights with a positive sum.
pub open spec fn interpolate(bar: Seq<int>, v: Seq<int>) -> Option<int> {
    if bar.len() == 3 && bar[0] + bar[1] + bar[2] > 0 {
        Some(div_trunc(bar[0] * v[0] + bar[1] * v[1] + bar[2] * v[2], bar[0] + bar[1] + bar[2]))
    } else {
        None
    }
}

/// `interpolate` for weights of any `i64` values and values within `i32`.
fn interpolate3(bar: &Vector, v: [i32; 3]) -> (r: Option<i128>)
    ensures
        r is Some <==> interpolate(bar@, seq![v[0] as int, v[1] as int, v[2] as int]) is Some,
        r is Some ==> r->0 as int == interpolate(
            bar@,
            seq![v[0] as int, v[1] as int, v[2] as int],
        )->0,
{
    if bar.len() != 3 {
        return None;
    }
    let b0 = bar.index(0) as i128;
    let b1 = bar.index(1) as i128;
    let b2 = bar.index(2) as i128;
    let total = b0 + b1 + b2;
    if total <= 0 {
        return None;
    }
    let lim = 0x8000_0000_0000_0000i128;
    assert(-lim * 0x8000_0000 <= b0 * (v[0] as i128) <= lim * 0x8000_0000) by (nonlinear_arith)
        requires -lim <= b0 <= lim, -0x8000_0000 <= v[0] <= 0x8000_0000;
    assert(-lim * 0x8000_0000 <= b1 * (v[1] as i128) <= lim * 0x8000_0000) by (nonlinear_arith)
        requires -lim <= b1 <= lim, -0x8000_0000 <= v[1] <= 0x8000_0000;
    assert(-lim * 0x8000_0000 <= b2 * (v[2] as i128) <= lim * 0x8000_0000) by (nonlinear_arith)
        requires -lim <= b2 <= lim, -0x8000_0000 <= v[2] <= 0x8000_0000;
    let n = b0 * (v[0] as i128) + b1 * (v[1] as i128) + b2 * (v[2] as i128);
    Some(n / total)
}

fn clamp_wide(x: i128, hi: usize) -> (r: i32)
    requires
        hi <= 65535,
    ensures
        r as int == clamp(x as int, 0, hi as int),
{
    if x < 0 {
        0
    } else if x > hi as i128 {
        hi as i32
    } else {
        x as i32
    }
}

/// Fills the triangle with one colour.
#[derive(Clone, Copy, Debug)]
pub struct FlatShader {
    pub color: u32,
}

impl Shader for FlatShader {
    open spec fn shade(&self, bar: Seq<int>) -> (u32, bool) {
        (self.color, false)
    }

    fn fragment(&self, bar: &Vector) -> (r: (u32, bool)) {
        (self.color, false)
    }
}

/// Grey shading with an intensity (out of 255) at each corner, interpolated
/// across the triangle.
#[derive(Clone, Copy, Debug)]
pub struct GouraudShader {
    pub intensity: [i32; 3],
}

impl Shader for GouraudShader {
    open spec fn shade(&self, bar: Seq<int>) -> (u32, bool) {
        let ity = self.intensity;
        match interpolate(bar, seq![ity[0] as int, ity[1] as int, ity[2] as int]) {
            Some(i) => (grey(255, i), false),
            None => (0, true),
        }
    }

    fn fragment(&self, bar: &Vector) -> (r: (u32, bool)) {
        match interpolate3(bar, self.intensity) {
            Some(i) => {
                let c = clamp_wide(i, 255);
                (get_color(255, c as i64), false)
            },
            None => (0, true),
        }
    }
}

/// Diffuse texturing: texture coordinates (in texels) at each corner are
/// interpolated, the texture is sampled there, and the colour is lit with
/// `intensity` out of 255.
pub struct TextureShader {
    texture: Tga,
    u: [i32; 3],
    v: [i32; 3],
    intensity: i64,
}

impl TextureShader {
    #[verifier::type_invariant]
    spec fn inv(&self) -> bool {
        &&& self.texture.wf()
        &&& self.texture.width_spec() >= 1
        &&& self.texture.height_spec() >= 1
    }

    pub fn new(texture: Tga, u: [i32; 3], v: [i32; 3], intensity: i64) -> (r: TextureShader)
        requires
            texture.wf(),
            texture.width_spec() >= 1,
            texture.height_spec() >= 1,
        ensures
            r.texture_spec() == texture,
            r.u_spec() == u,
            r.v_spec() == v,
            r.intensity_spec() == intensity,
    {
        TextureShader { texture, u, v, intensity }
    }

    /// Sets the texture coordinates and light of the next triangle.
    pub fn set_corners(&mut self, u: [i32; 3], v: [i32; 3], intensity: i64)
        ensures
            final(self).texture_spec() == old(self).texture_spec(),
            final(self).u_spec() == u,
            final(self).v_spec() == v,
            final(self).intensity_spec() == intensity,
    {
        proof {
            use_type_invariant(&*self);
        }
        self.u = u;
        self.v = v;
        self.intensity = intensity;
    }

    pub closed spec fn texture_spec(&self) -> Tga {
        self.texture
    }

    pub closed spec fn u_spec(&self) -> [i32; 3] {
        self.u
    }

    pub closed spec fn v_spec(&self) -> [i32; 3] {
        self.v
    }

    pub closed spec fn intensity_spec(&self) -> i64 {
        self.intensity
    }
}

impl Shader for TextureShader {
    open spec fn shade(&self, bar: Seq<int>) -> (u32, bool) {
        let (u, v, t) = (self.u_spec(), self.v_spec(), self.texture_spec());
        match (
            interpolate(bar, seq![u[0] as int, u[1] as int, u[2] as int]),
            interpolate(bar, seq![v[0] as int, v[1] as int, v[2] as int]),
        ) {
            (Some(a), Some(b)) => (
                shaded_rgb(
                    channels(
                        t.pixel(
                            clamp(a, 0, t.width_spec() - 1),
                            clamp(b, 0, t.height_spec() - 1),
                        ),
                    ),
                    self.intensity_spec() as int,
                ),
                false,
            ),
            _ => (0, true),
        }
    }

    fn fragment(&self, bar: &Vector) -> (r: (u32, bool)) {
        proof {
            use_type_invariant(self);
            self.texture.lemma_size();
        }
        let a = interpolate3(bar, self.u);
        let b = interpolate3(bar, self.v);
        match (a, b) {
            (Some(a), Some(b)) => {
                let x = clamp_wide(a, self.texture.width() - 1);
                let y = clamp_wide(b, self.texture.height() - 1);
                let texel = self.texture.get_pixel(x, y);
                (get_color_from_rgb(unpack(texel), self.intensity), false)
            },
            _ => (0, true),
        }
    }
}

} // verus!
