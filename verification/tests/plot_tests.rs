use aflak::imshow::lut::BuiltinLUT as ImshowLUT;
use aflak::input_state::{CircleInputState, RoiInputState};
use aflak::interactions::{FinedGrainedROI, Interactions};
use aflak::three::lut::{BuiltinLUT, ReadMode};
use aflak::units::AxisTransform;
use aflak::util::{clamp, invert_color, lerp, to_u32_color};
use aflak::zscale::{convolve, count_good_pixels};

#[test]
fn interaction_ids_are_fresh() {
    let mut it: Interactions<&str> = Interactions::new();
    assert_eq!(it.id().number(), 0);
    assert!(it.insert("line").is_none());
    assert_eq!(it.id().number(), 1);
    assert!(it.insert("circle").is_none());
    let second = it.id();
    assert_eq!(second.number(), 2);
    assert_eq!(second.id(), 2i32);
    assert_eq!(it.len(), 2);
    let ids = it.ids();
    assert_eq!(ids.iter().map(|i| i.number()).collect::<Vec<_>>(), vec![1, 2]);
    let first_id = ids[0];
    assert_eq!(it.get(first_id), Some(&"line"));
    assert_eq!(it.remove(first_id), Some("line"));
    assert_eq!(it.remove(first_id), None);
    assert_eq!(it.get(first_id), None);
    assert_eq!(it.len(), 1);
    // A removed ID is never handed out again.
    assert!(it.insert("roi").is_none());
    assert_eq!(it.id().number(), 3);
    let ids = it.ids();
    assert_eq!(ids.iter().map(|i| i.number()).collect::<Vec<_>>(), vec![2, 3]);
    assert_eq!(it.get(ids[1]), Some(&"roi"));
}

#[test]
fn interactions_any_moving() {
    let mut it: Interactions<(i32, bool)> = Interactions::new();
    it.insert((1, false));
    assert!(!it.any_moving(|i: &(i32, bool)| i.1));
    it.insert((2, true));
    assert!(it.any_moving(|i: &(i32, bool)| i.1));
}

#[test]
fn fined_grained_roi_tracks_changes() {
    let mut roi = FinedGrainedROI::new(4);
    assert_eq!(roi.id, 4);
    assert!(roi.pixels.is_empty());
    assert!(!roi.changed);
    roi.set_pixels(&vec![(1, 2), (3, 4)]);
    assert!(roi.changed);
    assert_eq!(roi.pixels, vec![(1, 2), (3, 4)]);
    roi.set_pixels(&vec![(1, 2), (3, 4)]);
    assert!(!roi.changed);
    let other = FinedGrainedROI::from_vec(5, vec![(0, 0)]);
    assert_eq!(other.id, 5);
    assert_eq!(other.pixels, vec![(0, 0)]);
    assert!(!other.changed);
}

#[test]
fn imshow_luts() {
    let all = ImshowLUT::values();
    assert_eq!(all.len(), 7);
    assert_eq!(all[0], ImshowLUT::Grey);
    assert_eq!(all[6], ImshowLUT::HeatMapInv);
    assert_eq!(ImshowLUT::HeatMapInv.name(), "HeatMap_Inv");
    assert_eq!(ImshowLUT::Thermal.name(), "Thermal");
}

#[test]
fn three_luts() {
    let all = BuiltinLUT::values();
    assert_eq!(all.len(), 12);
    assert_eq!(all[11], BuiltinLUT::TurboColor);
    for l in all {
        if l != BuiltinLUT::HeatMapInv {
            assert_eq!(BuiltinLUT::from_name(&l.name().to_owned()), Some(l));
        }
    }
    assert_eq!(BuiltinLUT::from_name(&"HeatMapInv".to_owned()), Some(BuiltinLUT::HeatMapInv));
    assert_eq!(BuiltinLUT::from_name(&"HeatMap_Inv".to_owned()), None);
    assert_eq!(BuiltinLUT::from_name(&"Purple".to_owned()), None);
    assert_ne!(ReadMode::RGB, ReadMode::HSV);
}

#[test]
fn axis_transform_names() {
    let f = |x: f32| x * 2.0;
    assert_eq!(AxisTransform::new("", "", f).name(), "");
    assert_eq!(AxisTransform::new("Wavelength", "", f).name(), "Wavelength");
    assert_eq!(AxisTransform::new("", "m", f).name(), "m");
    let t = AxisTransform::new("Wavelength", "m", f);
    assert_eq!(t.name(), "Wavelength (m)");
    assert_eq!(t.label(), "Wavelength");
    assert_eq!(t.unit(), "m");
    assert_eq!((t.transform())(1.5), 3.0);
    let id = AxisTransform::id("X", "px");
    assert_eq!(id.transform().apply(4.25f32), 4.25);
    assert_eq!(id.transform().apply(7u8), 7);
    assert_eq!(id.name(), "X (px)");
    assert!(AxisTransform::<fn(f32) -> f32>::none().is_none());
}

#[test]
fn util_functions() {
    assert_eq!(clamp(5, 0, 3), 3);
    assert_eq!(clamp(-1, 0, 3), 0);
    assert_eq!(clamp(2, 0, 3), 2);
    assert_eq!(clamp(0.5f32, 0.0, 1.0), 0.5);
    assert_eq!(clamp(clamp(7, 0, 3), 0, 3), 3);
    assert_eq!(clamp(clamp(-2.5f32, -1.0, 1.0), -1.0, 1.0), -1.0);
    assert_eq!(lerp(2i64, 10i64, 1i32), 10);
    assert_eq!(lerp(2.0f32, 4.0f32, 0.5f32), 3.0);
    assert_eq!(to_u32_color(&[0x12, 0x34, 0x56]), 0xFF56_3412);
    assert_eq!(invert_color(0xFF00_0000), 0xFFFF_FFFF);
    assert_eq!(invert_color(0xFFFF_FFFF), 0xFF00_0000);
}

#[test]
fn invert_color_twice_and_packed() {
    for c in [0xFF00_0000u32, 0xFF12_3456, 0xFFFF_FFFF] {
        assert_eq!(invert_color(invert_color(c)), c);
    }
    let c = to_u32_color(&[10, 20, 30]);
    assert_eq!(invert_color(c), to_u32_color(&[245, 235, 225]));
}

#[test]
fn convolve_grows_bad_pixels() {
    assert_eq!(convolve(vec![0, 1, 0, 0, 1], vec![1, 2]), vec![0, 1, 2, 0, 1]);
    assert_eq!(convolve(vec![3, 1, 2], vec![1, 1, 1, 1]), vec![3, 4, 6]);
    assert_eq!(convolve(vec![], vec![1]), Vec::<i32>::new());
    assert_eq!(convolve(vec![5, 6], vec![]), vec![0, 0]);
}

#[test]
fn good_pixels_counted() {
    assert_eq!(count_good_pixels(&vec![0, 1, 0, 2, 0]), 3);
    assert_eq!(count_good_pixels(&vec![]), 0);
}

#[test]
fn roi_names_and_selection() {
    let mut s = RoiInputState::new();
    assert_eq!(s.gen_id(), 1);
    assert_eq!(s.gen_id(), 2);
    assert_eq!(s.roi_names, vec!["Roi 1".to_owned(), "Roi 2".to_owned()]);
    assert!(s.is_selected(2));
    assert!(!s.is_selected(1));
    let mut c = CircleInputState::new();
    assert_eq!(c.gen_id(), 1);
    assert_eq!(c.circle_names, vec!["Circle: 1".to_owned()]);
    assert_eq!(c.selected, 1);
    assert!(c.is_selected(1));
}

#[test]
fn lut_names_are_distinct() {
    let all = BuiltinLUT::values();
    for (i, a) in all.iter().enumerate() {
        for b in &all[i + 1..] {
            assert_ne!(a.name(), b.name());
        }
    }
    let all = ImshowLUT::values();
    for (i, a) in all.iter().enumerate() {
        for b in &all[i + 1..] {
            assert_ne!(a.name(), b.name());
        }
    }
}
