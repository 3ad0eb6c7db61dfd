use arenic::ruler::{ruler_label, ruler_marks, ruler_units};

#[test]
fn the_ruler_picks_the_first_rung_that_fits() {
    assert_eq!(ruler_units(1, 1), (3600, Some(900)));
    assert_eq!(ruler_units(3600, 400), (3600, Some(900)));
    assert_eq!(ruler_units(3601, 1), (1, None));
    assert_eq!(ruler_units(1, 901), (3600, None));
    assert_eq!(ruler_units(1, 60), (3600, Some(900)));
}

#[test]
fn majors_come_first_and_minors_skip_them() {
    assert_eq!(
        ruler_marks(0, 100, 60, Some(15)),
        vec![
            (0, true),
            (60, true),
            (15, false),
            (30, false),
            (45, false),
            (75, false),
            (90, false),
        ]
    );
    assert_eq!(ruler_marks(61, 119, 60, None), vec![]);
    assert_eq!(ruler_marks(61, 120, 60, None), vec![(120, true)]);
    assert_eq!(ruler_marks(7000, 7200, 3600, Some(900)), vec![(7200, true)]);
    assert_eq!(ruler_marks(10, 40, 15, Some(1)).len(), 31);
}

#[test]
fn labels_read_as_a_clock_with_frames_below_a_second() {
    assert_eq!(ruler_label(3600, 3600), "1:00");
    assert_eq!(ruler_label(75, 60), "0:01");
    assert_eq!(ruler_label(75, 15), "0:01+15");
    assert_eq!(ruler_label(7, 1), "0:00+07");
}
