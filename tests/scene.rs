use softrender::geometry::Vector;
use softrender::scene::{Scene, ScreenVertex, Shader};
use softrender::shader::{get_color, get_color_from_rgb, unpack, FlatShader, GouraudShader};

fn vtx(x: i64, y: i64, z: i64) -> ScreenVertex {
    ScreenVertex { x, y, z, w: 1 }
}

fn written(s: &Scene) -> usize {
    let mut n = 0;
    for x in 0..s.width() {
        for y in 0..s.height() {
            if s.depth(x, y) != i64::MIN {
                n += 1;
            }
        }
    }
    n
}

#[test]
fn right_triangle_coverage() {
    let mut s = Scene::new(20, 20);
    let t = [vtx(0, 0, 0), vtx(10, 0, 0), vtx(0, 10, 0)];
    s.triangle(t, &FlatShader { color: 0xFFFFFF });
    assert_eq!(s.get(5, 2), 0xFFFFFF);
    assert_eq!(s.get(9, 9), 0);
    assert_eq!(s.depth(9, 9), i64::MIN);
    // Pixels with x, y >= 0 and x + y <= 10, edges included.
    assert_eq!(written(&s), 66);
    for x in 0..20 {
        for y in 0..20 {
            let inside = x + y <= 10;
            assert_eq!(s.get(x, y) == 0xFFFFFF, inside);
        }
    }
}

#[test]
fn winding_does_not_matter() {
    let mut a = Scene::new(12, 12);
    let mut b = Scene::new(12, 12);
    a.triangle([vtx(0, 0, 0), vtx(10, 0, 0), vtx(0, 10, 0)], &FlatShader { color: 7 });
    b.triangle([vtx(0, 10, 0), vtx(10, 0, 0), vtx(0, 0, 0)], &FlatShader { color: 7 });
    for x in 0..12 {
        for y in 0..12 {
            assert_eq!(a.get(x, y), b.get(x, y));
        }
    }
}

#[test]
fn nearer_triangle_wins_in_either_order() {
    let corners = [(1, 1), (15, 2), (3, 14)];
    let far: Vec<ScreenVertex> = corners.iter().map(|&(x, y)| vtx(x, y, 5)).collect();
    let near: Vec<ScreenVertex> = corners.iter().map(|&(x, y)| vtx(x, y, 10)).collect();
    let far = [far[0], far[1], far[2]];
    let near = [near[0], near[1], near[2]];
    let red = FlatShader { color: 0xFF0000 };
    let blue = FlatShader { color: 0x0000FF };

    let mut s1 = Scene::new(16, 16);
    s1.triangle(far, &red);
    s1.triangle(near, &blue);
    let mut s2 = Scene::new(16, 16);
    s2.triangle(near, &blue);
    s2.triangle(far, &red);
    let mut covered = 0;
    for x in 0..16 {
        for y in 0..16 {
            assert_eq!(s1.get(x, y), s2.get(x, y));
            if s1.depth(x, y) != i64::MIN {
                covered += 1;
                assert_eq!(s1.get(x, y), 0x0000FF);
                assert_eq!(s1.depth(x, y), 10);
                assert_eq!(s2.depth(x, y), 10);
            }
        }
    }
    assert!(covered > 0);
}

#[test]
fn flat_triangle_writes_nothing() {
    let mut s = Scene::new(10, 10);
    s.triangle([vtx(0, 4, 3), vtx(5, 4, 3), vtx(9, 4, 3)], &FlatShader { color: 0xFFFFFF });
    assert_eq!(written(&s), 0);
    for x in 0..10 {
        for y in 0..10 {
            assert_eq!(s.get(x, y), 0);
        }
    }
}

#[test]
fn equal_depth_does_not_overwrite() {
    let mut s = Scene::new(8, 8);
    let t = [vtx(0, 0, 4), vtx(7, 0, 4), vtx(0, 7, 4)];
    s.triangle(t, &FlatShader { color: 1 });
    s.triangle(t, &FlatShader { color: 2 });
    assert_eq!(s.get(1, 1), 1);
}

#[test]
fn depth_is_interpolated() {
    let mut s = Scene::new(11, 11);
    let t = [vtx(0, 0, 0), vtx(10, 0, 100), vtx(0, 10, 0)];
    s.triangle(t, &FlatShader { color: 3 });
    assert_eq!(s.depth(0, 0), 0);
    assert_eq!(s.depth(5, 0), 50);
    assert_eq!(s.depth(10, 0), 100);
    assert_eq!(s.depth(3, 4), 30);
}

#[test]
fn perspective_weights_follow_w() {
    let mut s = Scene::new(11, 11);
    let t = [
        ScreenVertex { x: 0, y: 0, z: 0, w: 1 },
        ScreenVertex { x: 10, y: 0, z: 90, w: 2 },
        ScreenVertex { x: 0, y: 10, z: 0, w: 1 },
    ];
    s.triangle(t, &FlatShader { color: 3 });
    // At the midpoint of the bottom edge the screen weights are 5 and 5;
    // divided by w they become 5 and 2.5, so z = 90 * 2.5 / 7.5 = 30.
    assert_eq!(s.depth(5, 0), 30);
}

#[test]
fn triangle_is_clipped_to_the_scene() {
    let mut s = Scene::new(5, 5);
    s.triangle([vtx(-20, -20, 1), vtx(40, -20, 1), vtx(-20, 40, 1)], &FlatShader { color: 9 });
    assert_eq!(written(&s), 25);
}

#[test]
fn set_paints_one_pixel() {
    let mut s = Scene::new(3, 3);
    s.set(1, 2, 0xABCDEF);
    assert_eq!(s.get(1, 2), 0xABCDEF);
    assert_eq!(s.get(2, 1), 0);
    assert_eq!(s.depth(1, 2), i64::MIN);
}

#[test]
fn gouraud_interpolates_intensity() {
    let mut s = Scene::new(11, 11);
    let t = [vtx(0, 0, 0), vtx(10, 0, 0), vtx(0, 10, 0)];
    s.triangle(t, &GouraudShader { intensity: [0, 255, 0] });
    assert_eq!(s.get(10, 0), 0xFFFFFF);
    assert_eq!(s.get(0, 0), 0);
    assert_eq!(s.get(0, 10), 0);
    let half = get_color(255, 127);
    assert_eq!(s.get(5, 0), half);
    assert_eq!(half, 0x7F7F7F);
}

#[test]
fn gouraud_discards_without_weights() {
    let g = GouraudShader { intensity: [10, 20, 30] };
    assert_eq!(g.fragment(&Vector::new(vec![0, 0, 0])), (0, true));
    assert_eq!(g.fragment(&Vector::new(vec![1, 1])), (0, true));
    assert_eq!(g.fragment(&Vector::new(vec![1, 1, 2])).1, false);
}

#[test]
fn color_helpers() {
    assert_eq!(get_color(255, 255), 0xFFFFFF);
    assert_eq!(get_color(255, 0), 0);
    assert_eq!(get_color(255, -40), 0);
    assert_eq!(get_color(255, 1000), 0xFFFFFF);
    assert_eq!(get_color(100, 51), 0x141414);
    assert_eq!(get_color_from_rgb([255, 128, 0], 255), 0xFF8000);
    assert_eq!(get_color_from_rgb([200, 100, 50], 51), 0x28140A);
    assert_eq!(unpack(0x123456), [0x12, 0x34, 0x56]);
}
