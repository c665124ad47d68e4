use monitorium::backend::{level_to_slider, slider_to_level};

#[test]
fn remap_roundtrip() {
    for v in 0..=100u8 {
        assert_eq!(slider_to_level(v, 0, 100), v);
        assert_eq!(level_to_slider(v, 0, 100), v);
    }
    assert_eq!(slider_to_level(0, 20, 80), 20);
    assert_eq!(slider_to_level(100, 20, 80), 80);
    assert_eq!(slider_to_level(50, 20, 80), 50);
    assert_eq!(level_to_slider(20, 20, 80), 0);
    assert_eq!(level_to_slider(80, 20, 80), 100);
    assert_eq!(level_to_slider(10, 20, 80), 0);
    assert_eq!(level_to_slider(50, 50, 50), 100);
}

#[test]
fn levels_read_back_write_back_unchanged() {
    for min in 0..=100u8 {
        for max in min..=100u8 {
            for level in min..=max {
                let shown = level_to_slider(level, min, max);
                assert_eq!(slider_to_level(shown, min, max), level);
            }
        }
    }
}

#[test]
fn swapped_and_oversized_ranges() {
    // a range given the wrong way round is the same range
    assert_eq!(slider_to_level(0, 80, 20), 20);
    assert_eq!(slider_to_level(100, 80, 20), 80);
    // ends above 100 count as 100
    assert_eq!(slider_to_level(100, 0, 200), 100);
    assert_eq!(slider_to_level(250, 0, 100), 100);
    assert_eq!(level_to_slider(200, 0, 100), 100);
    // rounding half up
    assert_eq!(slider_to_level(1, 0, 50), 1);
    assert_eq!(slider_to_level(3, 0, 50), 2);
}
