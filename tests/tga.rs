use softrender::geometry::Vector;
use softrender::scene::Shader;
use softrender::shader::TextureShader;
use softrender::tga::{Tga, TgaError};

fn header(kind: u8, width: u16, height: u16, bits: u8, descriptor: u8) -> Vec<u8> {
    let mut h = vec![0u8; 18];
    h[2] = kind;
    h[12] = (width & 0xFF) as u8;
    h[13] = (width >> 8) as u8;
    h[14] = (height & 0xFF) as u8;
    h[15] = (height >> 8) as u8;
    h[16] = bits;
    h[17] = descriptor;
    h
}

#[test]
fn uncompressed_true_colour() {
    let mut data = header(2, 2, 2, 24, 0);
    // Blue, green, red for each pixel, bottom row first.
    data.extend_from_slice(&[1, 2, 3, 4, 5, 6, 7, 8, 9, 10, 11, 12]);
    let t = Tga::read_bytes(&data).expect("valid");
    assert_eq!((t.width(), t.height()), (2, 2));
    assert_eq!(t.get_pixel(0, 0), 0x030201);
    assert_eq!(t.get_pixel(1, 0), 0x060504);
    assert_eq!(t.get_pixel(0, 1), 0x090807);
    assert_eq!(t.get_pixel(1, 1), 0x0C0B0A);
}

#[test]
fn flipped_rows() {
    let mut data = header(2, 1, 2, 24, 0x20);
    data.extend_from_slice(&[1, 2, 3, 4, 5, 6]);
    let t = Tga::read_bytes(&data).expect("valid");
    assert_eq!(t.get_pixel(0, 0), 0x060504);
    assert_eq!(t.get_pixel(0, 1), 0x030201);
}

#[test]
fn greyscale() {
    let mut data = header(3, 2, 1, 8, 0);
    data.extend_from_slice(&[0x10, 0xFF]);
    let t = Tga::read_bytes(&data).expect("valid");
    assert_eq!(t.get_pixel(0, 0), 0x101010);
    assert_eq!(t.get_pixel(1, 0), 0xFFFFFF);
}

#[test]
fn run_length_encoded() {
    let mut data = header(10, 4, 1, 32, 0);
    // Three copies of one pixel, then one literal pixel.
    data.extend_from_slice(&[0x82, 1, 2, 3, 0xFF, 0x00, 9, 8, 7, 0xFF]);
    let t = Tga::read_bytes(&data).expect("valid");
    assert_eq!(t.get_pixel(0, 0), 0x030201);
    assert_eq!(t.get_pixel(2, 0), 0x030201);
    assert_eq!(t.get_pixel(3, 0), 0x070809);
}

#[test]
fn pixel_lookup_clamps() {
    let mut data = header(3, 2, 2, 8, 0);
    data.extend_from_slice(&[1, 2, 3, 4]);
    let t = Tga::read_bytes(&data).expect("valid");
    assert_eq!(t.get_pixel(-5, 0), t.get_pixel(0, 0));
    assert_eq!(t.get_pixel(7, 9), t.get_pixel(1, 1));
    assert_eq!(t.get_pixel(1, -1), 0x020202);
}

#[test]
fn decode_errors() {
    assert_eq!(Tga::read_bytes(&vec![0u8; 10]).err(), Some(TgaError::TooShort));
    let mut colour_mapped = header(1, 1, 1, 8, 0);
    colour_mapped.push(0);
    assert_eq!(Tga::read_bytes(&colour_mapped).err(), Some(TgaError::Unsupported));
    let mut sixteen_bit = header(2, 1, 1, 16, 0);
    sixteen_bit.extend_from_slice(&[0, 0]);
    assert_eq!(Tga::read_bytes(&sixteen_bit).err(), Some(TgaError::Unsupported));
    let mut short = header(2, 2, 2, 24, 0);
    short.extend_from_slice(&[1, 2, 3]);
    assert_eq!(Tga::read_bytes(&short).err(), Some(TgaError::Truncated));
    let mut broken_run = header(10, 4, 1, 24, 0);
    broken_run.extend_from_slice(&[0x81, 1, 2]);
    assert_eq!(Tga::read_bytes(&broken_run).err(), Some(TgaError::Truncated));
}

#[test]
fn texture_shader_samples_and_lights() {
    let mut data = header(2, 2, 1, 24, 0);
    data.extend_from_slice(&[0, 0, 200, 100, 0, 0]);
    let t = Tga::read_bytes(&data).expect("valid");
    let full = TextureShader::new(t, [0, 1, 0], [0, 0, 0], 255);
    assert_eq!(full.fragment(&Vector::new(vec![1, 0, 0])), (0xC80000, false));
    assert_eq!(full.fragment(&Vector::new(vec![0, 1, 0])), (0x000064, false));
    assert_eq!(full.fragment(&Vector::new(vec![0, 0, 0])), (0, true));
}
