use hammond_b3::engine::{
    drawbar_wheel, foldback, footage_offset, percussion_wheel, Rng, WHEEL_MAX, WHEEL_MIN,
};

#[test]
fn foldback_keeps_ids_in_range() {
    for id in -40..200 {
        let f = foldback(id);
        assert!(
            (WHEEL_MIN..=WHEEL_MAX).contains(&f),
            "id {id} folded to {f}"
        );
    }
}

#[test]
fn foldback_preserves_pitch_class() {
    for id in -40..200 {
        assert_eq!((foldback(id) - id).rem_euclid(12), 0);
    }
}

#[test]
fn foldback_exact_values() {
    assert_eq!(foldback(24), 24);
    assert_eq!(foldback(114), 114);
    assert_eq!(foldback(60), 60);
    assert_eq!(foldback(23), 35);
    assert_eq!(foldback(12), 24);
    assert_eq!(foldback(-40), 32);
    assert_eq!(foldback(115), 103);
    assert_eq!(foldback(126), 114);
    assert_eq!(foldback(200), 104);
    assert_eq!(foldback(i32::MIN), foldback(foldback(i32::MIN)));
    assert_eq!(foldback(i32::MAX), foldback(foldback(i32::MAX)));
}

#[test]
fn foldback_is_idempotent() {
    for id in -100..300 {
        assert_eq!(foldback(foldback(id)), foldback(id));
    }
}

#[test]
fn footage_offsets_in_classic_order() {
    let expected = [-12, 7, 0, 12, 19, 24, 28, 31, 36];
    for (d, off) in expected.iter().enumerate() {
        assert_eq!(footage_offset(d), *off);
    }
}

#[test]
fn drawbar_wheels_fold_into_the_bank() {
    // A4 (69): 16' is A3 (57), 1' is three octaves up (105).
    assert_eq!(drawbar_wheel(69, 0), 57);
    assert_eq!(drawbar_wheel(69, 2), 69);
    assert_eq!(drawbar_wheel(69, 8), 105);
    // Top note: the 1' wheel (127 + 36) folds back down.
    assert_eq!(drawbar_wheel(127, 8), 103 + (163 - 103) % 12);
    // Bottom note: the 16' wheel (0 - 12) folds up.
    assert_eq!(drawbar_wheel(0, 0), 24);
    for note in 0..=127u8 {
        for d in 0..9 {
            let id = drawbar_wheel(note, d);
            assert!((WHEEL_MIN..=WHEEL_MAX).contains(&id));
            assert_eq!((id - note as i32 - footage_offset(d)).rem_euclid(12), 0);
        }
    }
}

#[test]
fn percussion_wheel_picks_the_harmonic() {
    assert_eq!(percussion_wheel(60, true), 79);
    assert_eq!(percussion_wheel(60, false), 72);
    assert_eq!(percussion_wheel(110, true), foldback(129));
    assert_eq!(percussion_wheel(0, false), 24);
}

#[test]
fn xorshift_matches_reference_sequence() {
    let mut rng = Rng::new(0x1234_5678);
    let mut x: u32 = 0x1234_5678;
    for _ in 0..1000 {
        x ^= x << 13;
        x ^= x >> 17;
        x ^= x << 5;
        assert_eq!(rng.next_u32(), x);
        assert_ne!(x, 0);
    }
}

#[test]
fn xorshift_first_value() {
    let mut rng = Rng::new(1);
    assert_eq!(rng.next_u32(), 270369);
}

#[test]
fn xorshift_zero_state_stays_zero() {
    let mut rng = Rng::new(0);
    assert_eq!(rng.next_u32(), 0);
}
