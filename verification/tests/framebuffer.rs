use tinyrenderer::renderer::{DisplayBuffer, Renderer};

#[test]
fn new_is_black_and_far() {
    let r = Renderer::new(4, 3);
    assert_eq!((r.width, r.height), (4, 3));
    assert_eq!(r.buf, vec![0x0000_00ff; 12]);
    assert_eq!(r.zbuf, vec![0u32; 12]);
    assert_eq!(f32::from_bits(r.zbuf[0]), 0.0);
}

#[test]
fn new_of_no_pixels() {
    let r = Renderer::new(0, 5);
    assert!(r.buf.is_empty());
    assert!(r.zbuf.is_empty());
    let r = Renderer::new(5, 0);
    assert!(r.buf.is_empty());
}

#[test]
fn pixel_inverts_y() {
    let mut r = Renderer::new(4, 3);
    r.pixel(0, 0, 0x11111111);
    r.pixel(3, 2, 0x22222222);
    r.pixel(1, 1, 0x33333333);
    let mut expected = vec![0x0000_00ffu32; 12];
    expected[8] = 0x11111111;
    expected[3] = 0x22222222;
    expected[5] = 0x33333333;
    assert_eq!(r.buf, expected);
    assert_eq!(r.zbuf, vec![0u32; 12]);
}

#[test]
fn pixel_outside_changes_nothing() {
    let mut r = Renderer::new(4, 3);
    r.pixel(1, 1, 0xabcdef01);
    let before = (r.buf.clone(), r.zbuf.clone());
    for (x, y) in [
        (-1, 0),
        (0, -1),
        (4, 0),
        (0, 3),
        (4, 3),
        (-1, -1),
        (2, 3),
        (100, 1),
        (1, 100),
        (i32::MIN, 0),
        (0, i32::MAX),
        (i32::MAX, i32::MIN),
    ] {
        r.pixel(x, y, 0xffffffff);
        assert_eq!((r.buf.clone(), r.zbuf.clone()), before, "({}, {})", x, y);
    }
}

#[test]
fn many_pixel_writes_stay_inside() {
    let mut r = Renderer::new(5, 4);
    let mut model = vec![0x0000_00ffu32; 20];
    let mut s: u32 = 7;
    for _ in 0..2000 {
        s = s.wrapping_mul(1_664_525).wrapping_add(1_013_904_223);
        let x = ((s >> 8) % 11) as i32 - 3;
        let y = ((s >> 16) % 11) as i32 - 3;
        r.pixel(x, y, s);
        if 0 <= x && x < 5 && 0 <= y && y < 4 {
            model[((4 - y - 1) * 5 + x) as usize] = s;
        }
        assert_eq!(r.buf.len(), 20);
    }
    assert_eq!(r.buf, model);
    assert_eq!(r.zbuf, vec![0u32; 20]);
}

#[test]
fn clear_gives_what_new_gives() {
    let mut r = Renderer::new(4, 3);
    r.pixel(1, 1, 0xabcdef01);
    r.put_fragment(2, 2, 0.5f32.to_bits(), 0x12345678);
    r.clear();
    let fresh = Renderer::new(4, 3);
    assert_eq!(r.buf, fresh.buf);
    assert_eq!(r.zbuf, fresh.zbuf);
    assert_eq!((r.width, r.height), (4, 3));
}

#[test]
fn draw_frame_is_rgba_bytes() {
    let mut r = Renderer::new(2, 2);
    r.pixel(0, 1, 0x01020304);
    r.pixel(1, 0, 0xa0b0c0d0);
    let mut frame = vec![0x55u8; 16];
    r.draw(&mut frame, DisplayBuffer::Frame);
    assert_eq!(
        frame,
        vec![1, 2, 3, 4, 0, 0, 0, 255, 0, 0, 0, 255, 0xa0, 0xb0, 0xc0, 0xd0]
    );
}

#[test]
fn draw_stops_at_the_shorter_of_the_two() {
    let r = Renderer::new(2, 2);
    let mut frame = vec![0x55u8; 10];
    r.draw(&mut frame, DisplayBuffer::Frame);
    assert_eq!(frame, vec![0, 0, 0, 255, 0, 0, 0, 255, 0x55, 0x55]);
    let mut frame = vec![0x55u8; 19];
    r.draw(&mut frame, DisplayBuffer::Frame);
    let mut expected = [0u8, 0, 0, 255].repeat(4);
    expected.extend_from_slice(&[0x55, 0x55, 0x55]);
    assert_eq!(frame, expected);
    let mut frame: Vec<u8> = vec![];
    r.draw(&mut frame, DisplayBuffer::Frame);
    assert!(frame.is_empty());
}

#[test]
fn zbuf_buf_is_grey() {
    let mut r = Renderer::new(2, 2);
    r.zbuf[0] = 127.5f32.to_bits();
    r.zbuf[1] = 255.0f32.to_bits();
    r.zbuf[2] = (-4.0f32).to_bits();
    r.zbuf[3] = 0.75f32.to_bits();
    assert_eq!(r.zbuf_buf(), vec![0x7f7f7fff, 0xffffffff, 0x000000ff, 0x000000ff]);
}

#[test]
fn zbuf_buf_does_not_clamp() {
    let mut r = Renderer::new(1, 1);
    r.zbuf[0] = 256.0f32.to_bits();
    assert_eq!(r.zbuf_buf(), vec![(256u32 << 24) | (256 << 16) | (256 << 8) | 255]);
    assert_eq!(r.zbuf_buf(), vec![0x010100ff]);
}

#[test]
fn draw_depth_presents_the_greys() {
    let mut r = Renderer::new(2, 1);
    r.zbuf[0] = 3.9f32.to_bits();
    r.zbuf[1] = 200.0f32.to_bits();
    let mut frame = vec![0u8; 8];
    r.draw(&mut frame, DisplayBuffer::Depth);
    assert_eq!(frame, vec![3, 3, 3, 255, 200, 200, 200, 255]);
}

#[test]
fn snapshot_is_a_copy() {
    let mut r = Renderer::new(3, 2);
    r.pixel(2, 1, 0xdeadbeef);
    let t = r.snapshot();
    assert_eq!((t.width, t.height), (3, 2));
    assert_eq!(t.buf, r.buf);
    r.pixel(0, 0, 0x01010101);
    assert_eq!(t.buf[3], 0x0000_00ff);
    assert_eq!(t.lookup(2, 0), 0xdeadbeef);
}

#[test]
fn fits_is_what_new_asks() {
    assert!(Renderer::fits(0, 0));
    assert!(Renderer::fits(1000, 1000));
    assert!(Renderer::fits(46340, 46340));
    assert!(Renderer::fits(i32::MAX, 1));
    assert!(Renderer::fits(i32::MAX, 0));
    assert!(!Renderer::fits(46341, 46341));
    assert!(!Renderer::fits(i32::MAX, 2));
    assert!(!Renderer::fits(-1, 5));
    assert!(!Renderer::fits(5, -1));
    assert!(!Renderer::fits(-2, -2));
}

#[test]
fn well_formed_buffers_have_the_size_of_the_frame() {
    let mut r = Renderer::new(4, 3);
    assert!(r.is_well_formed());
    r.buf.pop();
    assert!(!r.is_well_formed());
    r.buf.push(0);
    r.zbuf.push(0);
    assert!(!r.is_well_formed());
    r.zbuf.pop();
    r.width = 3;
    assert!(!r.is_well_formed());
    r.height = 4;
    assert!(r.is_well_formed());
    r.width = -3;
    r.height = -4;
    assert!(!r.is_well_formed());
}
