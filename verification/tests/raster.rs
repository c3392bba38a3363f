use std::cell::Cell;
use tinyrenderer::geometry::Vector2i;
use tinyrenderer::raster::{is_inside, BoundingBox, Fragment};
use tinyrenderer::renderer::Renderer;

const BLACK: u32 = 0x0000_00ff;

type V4 = [f32; 4];

fn viewport_apply(x: f32, y: f32, w: f32, h: f32, v: V4) -> V4 {
    let depth = 255.0f32;
    [
        w / 2.0 * v[0] + (x + w / 2.0) * v[3],
        h / 2.0 * v[1] + (y + h / 2.0) * v[3],
        depth / 2.0 * v[2] + depth / 2.0 * v[3],
        v[3],
    ]
}

fn barycentric(a: [f32; 2], b: [f32; 2], c: [f32; 2], p: [f32; 2]) -> [f32; 3] {
    let s0 = [c[1] - a[1], b[1] - a[1], a[1] - p[1]];
    let s1 = [c[0] - a[0], b[0] - a[0], a[0] - p[0]];
    let u = [
        s0[1] * s1[2] - s0[2] * s1[1],
        s0[2] * s1[0] - s0[0] * s1[2],
        s0[0] * s1[1] - s0[1] * s1[0],
    ];
    if u[2].abs() > 0.01 {
        [1.0 - (u[0] + u[1]) / u[2], u[1] / u[2], u[0] / u[2]]
    } else {
        [-1.0, 1.0, 1.0]
    }
}

struct Setup {
    scr: [V4; 3],
    s: [[f32; 2]; 3],
    floors: [Vector2i; 3],
    ceils: [Vector2i; 3],
}

fn setup(w: i32, h: i32, clip: [V4; 3]) -> Setup {
    let scr = clip.map(|v| viewport_apply(0.0, 0.0, w as f32, h as f32, v));
    let s = scr.map(|v| [v[0] / v[3], v[1] / v[3]]);
    Setup {
        scr,
        s,
        floors: s.map(|p| Vector2i::new(p[0].floor() as i32, p[1].floor() as i32)),
        ceils: s.map(|p| Vector2i::new(p[0].ceil() as i32, p[1].ceil() as i32)),
    }
}

fn cover(t: &Setup, x: i32, y: i32) -> Fragment<[f32; 3]> {
    let bc = barycentric(t.s[0], t.s[1], t.s[2], [x as f32, y as f32]);
    let mut clip = [bc[0] / t.scr[0][3], bc[1] / t.scr[1][3], bc[2] / t.scr[2][3]];
    let sum = clip[0] + clip[1] + clip[2];
    clip = [clip[0] / sum, clip[1] / sum, clip[2] / sum];
    let depth = t.scr[0][2] * clip[0] + t.scr[1][2] * clip[1] + t.scr[2][2] * clip[2];
    Fragment { screen: bc.map(f32::to_bits), depth: depth.to_bits(), weights: clip }
}

fn within<W>(depth: f32, weights: W) -> Fragment<W> {
    Fragment { screen: [0.25f32, 0.25, 0.5].map(f32::to_bits), depth: depth.to_bits(), weights }
}

fn without<W>(depth: f32, weights: W) -> Fragment<W> {
    Fragment { screen: [-1.0f32, 1.0, 1.0].map(f32::to_bits), depth: depth.to_bits(), weights }
}

fn fill(r: &mut Renderer, clip: [V4; 3], color: u32) {
    let t = setup(r.width, r.height, clip);
    r.triangle_shade(&t.floors, &t.ceils, |x, y| cover(&t, x, y), |_w| Some(color));
}

fn color_at(r: &Renderer, x: i32, y: i32) -> u32 {
    r.buf[((r.height - y - 1) * r.width + x) as usize]
}

fn depth_at(r: &Renderer, x: i32, y: i32) -> f32 {
    f32::from_bits(r.zbuf[((r.height - y) * r.width + x) as usize])
}

fn big(z: f32) -> [V4; 3] {
    [[-1.0, -1.0, z, 1.0], [1.0, -1.0, z, 1.0], [0.0, 1.0, z, 1.0]]
}

// The triangle of `big` on a buffer of 10 by 10 has the corners (0, 0),
// (10, 0) and (5, 10).
fn strictly_inside(x: i32, y: i32) -> bool {
    y > 0 && 2 * x - y > 0 && 2 * (10 - x) - y > 0
}

fn strictly_outside(x: i32, y: i32) -> bool {
    y < 0 || 2 * x - y < 0 || 2 * (10 - x) - y < 0
}

#[test]
fn bounding_box_is_clamped_to_the_buffer() {
    let r = Renderer::new(10, 10);
    let floors = [Vector2i::new(2, 3), Vector2i::new(7, 1), Vector2i::new(4, 8)];
    let ceils = [Vector2i::new(3, 3), Vector2i::new(7, 2), Vector2i::new(5, 9)];
    assert_eq!(
        r.bounding_box(&floors, &ceils),
        BoundingBox { min: Vector2i::new(2, 1), max: Vector2i::new(7, 9) }
    );
    let floors = [Vector2i::new(-5, -5), Vector2i::new(20, 3), Vector2i::new(4, 30)];
    let ceils = [Vector2i::new(-4, -4), Vector2i::new(21, 4), Vector2i::new(5, 31)];
    assert_eq!(
        r.bounding_box(&floors, &ceils),
        BoundingBox { min: Vector2i::new(0, 0), max: Vector2i::new(9, 9) }
    );
}

#[test]
fn bounding_box_of_a_far_point_is_one_corner() {
    let r = Renderer::new(10, 10);
    let p = [Vector2i::new(-100, -100); 3];
    assert_eq!(
        r.bounding_box(&p, &p),
        BoundingBox { min: Vector2i::new(0, 0), max: Vector2i::new(0, 0) }
    );
    let p = [Vector2i::new(100, 100); 3];
    assert_eq!(
        r.bounding_box(&p, &p),
        BoundingBox { min: Vector2i::new(9, 9), max: Vector2i::new(9, 9) }
    );
}

#[test]
fn bounding_box_of_an_empty_buffer_is_empty() {
    let r = Renderer::new(0, 0);
    let p = [Vector2i::new(3, 3); 3];
    let b = r.bounding_box(&p, &p);
    assert_eq!(b, BoundingBox { min: Vector2i::new(0, 0), max: Vector2i::new(-1, -1) });
}

#[test]
fn single_triangle_fills_its_inside() {
    let mut r = Renderer::new(10, 10);
    fill(&mut r, big(0.0), 0xff0000ff);
    let mut inside = 0;
    for y in 0..10 {
        for x in 0..10 {
            if strictly_inside(x, y) {
                inside += 1;
                assert_eq!(color_at(&r, x, y), 0xff0000ff, "({}, {})", x, y);
                assert_eq!(depth_at(&r, x, y), 127.5, "({}, {})", x, y);
            }
            if strictly_outside(x, y) {
                assert_eq!(color_at(&r, x, y), BLACK, "({}, {})", x, y);
            }
        }
    }
    assert_eq!(inside, 41);
    assert_eq!(color_at(&r, 9, 1), 0xff0000ff);
    assert_eq!(color_at(&r, 5, 9), 0xff0000ff);
}

#[test]
fn row_zero_is_never_drawn() {
    let mut r = Renderer::new(10, 10);
    fill(&mut r, big(0.0), 0xff0000ff);
    for x in 0..10 {
        assert_eq!(color_at(&r, x, 0), BLACK);
    }
    for x in 0..10 {
        assert_eq!(r.zbuf[x], 0);
    }
}

#[test]
fn nearer_triangle_overwrites() {
    let mut r = Renderer::new(10, 10);
    fill(&mut r, big(0.1), 0x11111111);
    fill(&mut r, big(0.9), 0x22222222);
    let far = 127.5f32 * 0.1 + 127.5;
    let near = 127.5f32 * 0.9 + 127.5;
    assert!(near > far);
    for y in 0..10 {
        for x in 0..10 {
            if strictly_inside(x, y) {
                assert_eq!(color_at(&r, x, y), 0x22222222);
                assert!((depth_at(&r, x, y) - near).abs() < 1e-3);
            }
        }
    }
}

#[test]
fn farther_triangle_is_rejected() {
    let mut r = Renderer::new(10, 10);
    fill(&mut r, big(0.9), 0x22222222);
    let after_first = (r.buf.clone(), r.zbuf.clone());
    fill(&mut r, big(0.1), 0x11111111);
    assert_eq!((r.buf.clone(), r.zbuf.clone()), after_first);
}

#[test]
fn equal_depth_overwrites() {
    let mut r = Renderer::new(10, 10);
    fill(&mut r, big(0.5), 0x11111111);
    fill(&mut r, big(0.5), 0x22222222);
    assert_eq!(color_at(&r, 5, 5), 0x22222222);
}

#[test]
fn depth_below_the_cleared_sample_is_rejected() {
    let mut r = Renderer::new(10, 10);
    fill(&mut r, big(-1.5), 0x11111111);
    assert_eq!(r.buf, vec![BLACK; 100]);
    assert_eq!(r.zbuf, vec![0; 100]);
}

#[test]
fn far_away_triangle_writes_nothing() {
    let mut r = Renderer::new(10, 10);
    let calls = Cell::new(0);
    let p = [Vector2i::new(-100, -100); 3];
    r.triangle_shade(
        &p,
        &p,
        |_x, _y| {
            calls.set(calls.get() + 1);
            within(1.0, ())
        },
        |_w| Some(0xffffffff),
    );
    assert_eq!(calls.get(), 0);
    assert_eq!(r.buf, vec![BLACK; 100]);
    assert_eq!(r.zbuf, vec![0; 100]);
}

#[test]
fn degenerate_triangle_writes_nothing() {
    let mut r = Renderer::new(10, 10);
    let p = [0.2, -0.4, 0.5, 1.0];
    fill(&mut r, [p, p, p], 0xffffffff);
    assert_eq!(r.buf, vec![BLACK; 100]);
    assert_eq!(r.zbuf, vec![0; 100]);
    let q = [-0.5, -0.5, 0.5, 1.0];
    fill(&mut r, [q, q, q], 0xffffffff);
    assert_eq!(r.buf, vec![BLACK; 100]);
}

#[test]
fn every_pixel_of_the_box_is_offered_once() {
    let mut r = Renderer::new(6, 5);
    let seen = Cell::new(0u64);
    let floors = [Vector2i::new(1, 0), Vector2i::new(4, 2), Vector2i::new(2, 4)];
    let ceils = [Vector2i::new(1, 0), Vector2i::new(4, 2), Vector2i::new(2, 4)];
    r.triangle_shade(
        &floors,
        &ceils,
        |x, y| {
            let bit = 1u64 << (y * 6 + x);
            assert_eq!(seen.get() & bit, 0);
            seen.set(seen.get() | bit);
            without(1.0, ())
        },
        |_w| Some(0xffffffff),
    );
    let mut expected = 0u64;
    for y in 1..=4 {
        for x in 1..=4 {
            expected |= 1u64 << (y * 6 + x);
        }
    }
    assert_eq!(seen.get(), expected);
    assert_eq!(r.buf, vec![BLACK; 30]);
}

#[test]
fn shading_runs_only_after_the_depth_test() {
    let mut r = Renderer::new(4, 4);
    r.put_fragment(1, 1, 5.0f32.to_bits(), 0x01010101);
    let shaded = Cell::new(0);
    let p = [Vector2i::new(1, 1), Vector2i::new(2, 2), Vector2i::new(1, 2)];
    r.triangle_shade(
        &p,
        &p,
        |x, y| within(3.0, (x, y)),
        |w| {
            shaded.set(shaded.get() + 1);
            assert_ne!(w, (1, 1));
            Some(0x02020202)
        },
    );
    assert_eq!(shaded.get(), 3);
    assert_eq!(color_at(&r, 1, 1), 0x01010101);
    assert_eq!(depth_at(&r, 1, 1), 5.0);
    assert_eq!(color_at(&r, 2, 2), 0x02020202);
    assert_eq!(depth_at(&r, 2, 2), 3.0);
}

#[test]
fn discarded_fragment_leaves_the_pixel() {
    let mut r = Renderer::new(4, 4);
    let p = [Vector2i::new(1, 1), Vector2i::new(2, 2), Vector2i::new(1, 2)];
    r.triangle_shade(
        &p,
        &p,
        |_x, _y| within(3.0, ()),
        |_w| None,
    );
    assert_eq!(r.buf, vec![BLACK; 16]);
    assert_eq!(r.zbuf, vec![0; 16]);
}

#[test]
fn sign_test_of_the_weights() {
    let bits = |w: [f32; 3]| w.map(f32::to_bits);
    assert!(is_inside(&bits([0.2, 0.3, 0.5])));
    assert!(is_inside(&bits([0.0, 0.0, 1.0])));
    assert!(is_inside(&bits([-0.0, 0.5, 0.5])));
    assert!(is_inside(&bits([f32::NAN, 0.5, 0.5])));
    assert!(!is_inside(&bits([-1.0, 1.0, 1.0])));
    assert!(!is_inside(&bits([0.6, -0.1, 0.5])));
    assert!(!is_inside(&bits([0.6, 0.5, -1e-30])));
    assert!(!is_inside(&bits([1.0, 1.0, f32::NEG_INFINITY])));
    for w in [[0.2f32, 0.3, 0.5], [-0.2, 0.7, 0.5], [0.5, -0.0, 0.5], [1.5, -0.25, -0.25], [f32::NAN, -1.0, 0.0]] {
        assert_eq!(is_inside(&bits(w)), !(w[0] < 0.0 || w[1] < 0.0 || w[2] < 0.0), "{:?}", w);
    }
}

#[test]
fn pixel_outside_the_triangle_is_left_alone() {
    let mut r = Renderer::new(4, 4);
    let shaded = Cell::new(0);
    let p = [Vector2i::new(1, 1), Vector2i::new(2, 2), Vector2i::new(1, 2)];
    r.triangle_shade(
        &p,
        &p,
        |x, y| if x == y { within(3.0, ()) } else { without(9.0, ()) },
        |_w| {
            shaded.set(shaded.get() + 1);
            Some(0x02020202)
        },
    );
    assert_eq!(shaded.get(), 2);
    assert_eq!(color_at(&r, 1, 1), 0x02020202);
    assert_eq!(color_at(&r, 2, 2), 0x02020202);
    assert_eq!(color_at(&r, 1, 2), BLACK);
    assert_eq!(color_at(&r, 2, 1), BLACK);
    assert_eq!(depth_at(&r, 1, 2), 0.0);
}

#[test]
fn depth_test_and_put_fragment() {
    let mut r = Renderer::new(4, 4);
    assert!(r.depth_test(2, 3, 0.0f32.to_bits()));
    assert!(r.depth_test(2, 3, 1.0f32.to_bits()));
    assert!(!r.depth_test(2, 3, (-1.0f32).to_bits()));
    r.put_fragment(2, 3, 1.0f32.to_bits(), 0x0a0b0c0d);
    assert_eq!(r.zbuf[1 * 4 + 2], 1.0f32.to_bits());
    assert_eq!(r.buf[0 * 4 + 2], 0x0a0b0c0d);
    assert!(!r.depth_test(2, 3, 0.5f32.to_bits()));
    assert!(r.depth_test(2, 3, 1.0f32.to_bits()));
    assert!(r.depth_test(2, 3, 2.0f32.to_bits()));
}

#[test]
fn depth_sample_is_the_greatest_accepted() {
    let mut r = Renderer::new(3, 3);
    let offers = [0.3f32, 0.1, 0.7, 0.7, 0.2, 0.9, 0.4];
    let mut greatest = 0.0f32;
    for (i, d) in offers.iter().enumerate() {
        let p = [Vector2i::new(1, 1); 3];
        r.triangle_shade(&p, &p, |_x, _y| within(*d, ()), |_w| Some(i as u32));
        if *d >= greatest {
            greatest = *d;
        }
        assert_eq!(depth_at(&r, 1, 1), greatest);
    }
    assert_eq!(depth_at(&r, 1, 1), 0.9);
    assert_eq!(color_at(&r, 1, 1), 5);
}

#[test]
fn weights_reach_the_shading_stage_perspective_correct() {
    let mut r = Renderer::new(30, 30);
    let clip: [V4; 3] = [[-0.8, -0.8, 0.0, 1.0], [0.8, -0.8, 0.0, 1.0], [-1.6, 2.0, 0.0, 2.0]];
    let t = setup(30, 30, clip);
    assert_eq!(t.s, [[3.0, 3.0], [27.0, 3.0], [3.0, 30.0]]);
    let uvs = [[0.0f32, 0.0], [1.0, 0.0], [0.0, 1.0]];
    let got = Cell::new([0.0f32; 2]);
    r.triangle_shade(
        &t.floors,
        &t.ceils,
        |x, y| if (x, y) == (11, 12) { cover(&t, x, y) } else { without(0.0, [0.0; 3]) },
        |w| {
            got.set([
                uvs[0][0] * w[0] + uvs[1][0] * w[1] + uvs[2][0] * w[2],
                uvs[0][1] * w[0] + uvs[1][1] * w[1] + uvs[2][1] * w[2],
            ]);
            Some(0xffffffff)
        },
    );
    let uv = got.get();
    assert!((uv[0] - 0.4).abs() < 1e-5, "{:?}", uv);
    assert!((uv[1] - 0.2).abs() < 1e-5, "{:?}", uv);
    assert!((uv[0] - 1.0 / 3.0).abs() > 0.05);
}

#[test]
fn depth_pass_twice_gives_the_same_buffers() {
    let triangles = [
        big(0.3),
        [[-0.5, -0.5, 0.8, 1.0], [0.7, -0.2, 0.1, 1.0], [0.1, 0.9, 0.5, 1.0]],
        [[-0.9, 0.4, -0.2, 1.0], [0.3, -0.9, 0.6, 2.0], [0.8, 0.8, 0.9, 1.5]],
    ];
    let pass = |r: &mut Renderer| {
        for (i, t) in triangles.iter().enumerate() {
            fill(r, *t, 0x10101000 * (i as u32 + 1) + 0xff);
        }
    };
    let mut r = Renderer::new(16, 16);
    pass(&mut r);
    let first = (r.buf.clone(), r.zbuf.clone());
    assert_ne!(first.0, vec![BLACK; 256]);
    r.clear();
    pass(&mut r);
    assert_eq!((r.buf.clone(), r.zbuf.clone()), first);
}
