use tinyrenderer::depth::{depth_greater, depth_level};

fn samples() -> Vec<u32> {
    let mut v: Vec<u32> = vec![
        0,
        0x8000_0000,
        1,
        0x8000_0001,
        0x007f_ffff,
        0x0080_0000,
        0x3f80_0000,
        0xbf80_0000,
        0x3f7f_ffff,
        0x3f80_0001,
        0x4b00_0000,
        0x4b7f_ffff,
        0x4b80_0000,
        0x4f00_0000,
        0x4f7f_ffff,
        0x4f80_0000,
        0x7f7f_ffff,
        0x7f80_0000,
        0xff80_0000,
        0x7f80_0001,
        0x7fc0_0000,
        0xffc0_0000,
        0x7fff_ffff,
        0xffff_ffff,
    ];
    for f in [0.1f32, 0.9, 0.5, 1.5, 2.0, 127.5, 140.25, 242.25, 255.0, 255.99, 256.0, 1e9, 4294967040.0, 4294967296.0, 1e20]
    {
        v.push(f.to_bits());
        v.push((-f).to_bits());
    }
    let mut x: u32 = 0x9e37_79b9;
    for _ in 0..300 {
        x = x.wrapping_mul(1_664_525).wrapping_add(1_013_904_223);
        v.push(x);
    }
    v
}

#[test]
fn greater_is_the_order_of_the_numbers() {
    let s = samples();
    for &a in &s {
        for &b in &s {
            assert_eq!(depth_greater(a, b), f32::from_bits(a) > f32::from_bits(b), "{:#x} > {:#x}", a, b);
        }
    }
}

#[test]
fn greater_on_chosen_values() {
    assert!(depth_greater(0.9f32.to_bits(), 0.1f32.to_bits()));
    assert!(!depth_greater(0.1f32.to_bits(), 0.9f32.to_bits()));
    assert!(!depth_greater(0.5f32.to_bits(), 0.5f32.to_bits()));
    assert!(depth_greater(0, (-1.0f32).to_bits()));
    assert!(depth_greater((-1.0f32).to_bits(), (-2.0f32).to_bits()));
}

#[test]
fn the_two_zeros_are_equal() {
    assert!(!depth_greater(0, 0x8000_0000));
    assert!(!depth_greater(0x8000_0000, 0));
}

#[test]
fn nothing_compares_with_a_nan() {
    let nan = f32::NAN.to_bits();
    assert!(!depth_greater(nan, 0));
    assert!(!depth_greater(0, nan));
    assert!(!depth_greater(nan, nan));
    assert!(!depth_greater(f32::INFINITY.to_bits(), nan));
}

#[test]
fn level_is_the_cast_of_the_number() {
    for a in samples() {
        assert_eq!(depth_level(a), f32::from_bits(a) as u32, "{:#x}", a);
    }
}

#[test]
fn level_on_chosen_values() {
    assert_eq!(depth_level(0), 0);
    assert_eq!(depth_level(0.99f32.to_bits()), 0);
    assert_eq!(depth_level(1.0f32.to_bits()), 1);
    assert_eq!(depth_level(127.5f32.to_bits()), 127);
    assert_eq!(depth_level(255.0f32.to_bits()), 255);
    assert_eq!(depth_level(16777216.0f32.to_bits()), 16777216);
    assert_eq!(depth_level(4294967040.0f32.to_bits()), 4294967040);
    assert_eq!(depth_level(4294967296.0f32.to_bits()), u32::MAX);
    assert_eq!(depth_level(f32::INFINITY.to_bits()), u32::MAX);
    assert_eq!(depth_level(f32::NEG_INFINITY.to_bits()), 0);
    assert_eq!(depth_level((-3.5f32).to_bits()), 0);
    assert_eq!(depth_level(f32::NAN.to_bits()), 0);
}
