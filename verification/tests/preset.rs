use hammond_b3::preset::{
    drawbar_colour, drawbar_level, DrawbarColour, LeslieSpeed, Percussion, VibratoMode,
    DRAWBAR_COUNT,
};

#[test]
fn vibrato_labels_are_stable() {
    assert_eq!(VibratoMode::C3.label(), "C-3");
    assert_eq!(VibratoMode::Off.label(), "OFF");
}

#[test]
fn every_vibrato_label() {
    let labels: Vec<&str> = VibratoMode::all().iter().map(|m| m.label()).collect();
    assert_eq!(labels, vec!["OFF", "V-1", "V-2", "V-3", "C-1", "C-2", "C-3"]);
}

#[test]
fn defaults_match_the_factory_settings() {
    assert_eq!(LeslieSpeed::default(), LeslieSpeed::Slow);
    assert_eq!(VibratoMode::default(), VibratoMode::Off);
    assert_eq!(
        Percussion::default(),
        Percussion {
            on: true,
            soft: false,
            fast: true,
            third: true
        }
    );
}

#[test]
fn drawbar_level_is_clamped() {
    let drawbars = [0, 8, 4, 0, 0, 0, 0, 0, 9];
    assert_eq!(drawbar_level(&drawbars, 0), 0);
    assert_eq!(drawbar_level(&drawbars, 1), 8);
    assert_eq!(drawbar_level(&drawbars, 2), 4);
    assert_eq!(drawbar_level(&drawbars, 8), 8);
    let full = [255u8; DRAWBAR_COUNT];
    for i in 0..DRAWBAR_COUNT {
        assert_eq!(drawbar_level(&full, i), 8);
    }
}

#[test]
fn drawbar_colours_follow_the_console() {
    let expected = [
        DrawbarColour::Brown,
        DrawbarColour::Brown,
        DrawbarColour::White,
        DrawbarColour::White,
        DrawbarColour::Black,
        DrawbarColour::White,
        DrawbarColour::Black,
        DrawbarColour::Black,
        DrawbarColour::Black,
    ];
    for (i, c) in expected.iter().enumerate() {
        assert_eq!(drawbar_colour(i), *c);
    }
}
