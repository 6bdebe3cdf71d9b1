use flux_viewer::parser::Sample;
use flux_viewer::view::{Mode, ViewController};

fn sample(x: &[u8], y: &[u8], yp: &[u8]) -> Sample {
    Sample { x: x.to_vec(), y: y.to_vec(), yp: yp.to_vec() }
}

#[test]
fn fresh_controller_shows_values_with_no_reset_pending() {
    let mut vc = ViewController::new();
    assert_eq!(vc.mode(), Mode::Value);
    assert_eq!(vc.consume_bounds_reset(), false);
}

#[test]
fn projection_picks_value_or_derivative() {
    let layer = vec![sample(b"0.0", b"1.0", b"0.0"), sample(b"1.0", b"1.1", b"0.05")];
    let mut vc = ViewController::new();
    let pts = vc.project_layer(&layer);
    assert_eq!(pts.len(), 2);
    assert_eq!(pts[0], (b"0.0".to_vec(), b"1.0".to_vec()));
    assert_eq!(pts[1], (b"1.0".to_vec(), b"1.1".to_vec()));
    vc.set_mode(Mode::Derivative);
    let pts = vc.project_layer(&layer);
    assert_eq!(pts.len(), 2);
    assert_eq!(pts[0], (b"0.0".to_vec(), b"0.0".to_vec()));
    assert_eq!(pts[1], (b"1.0".to_vec(), b"0.05".to_vec()));
}

#[test]
fn projection_keeps_order_and_count() {
    let layer = vec![
        sample(b"2.0", b"9.0", b"8.0"),
        sample(b"0.0", b"7.0", b"6.0"),
        sample(b"1.0", b"5.0", b"4.0"),
    ];
    let vc = ViewController::new();
    let pts = vc.project_layer(&layer);
    assert_eq!(pts.len(), 3);
    assert_eq!(pts[0].0, b"2.0".to_vec());
    assert_eq!(pts[1].0, b"0.0".to_vec());
    assert_eq!(pts[2].0, b"1.0".to_vec());
}

#[test]
fn switching_mode_raises_the_reset_flag_once() {
    let mut vc = ViewController::new();
    vc.set_mode(Mode::Derivative);
    assert_eq!(vc.consume_bounds_reset(), true);
    assert_eq!(vc.consume_bounds_reset(), false);
}

#[test]
fn switching_to_the_active_mode_never_raises_the_flag() {
    let mut vc = ViewController::new();
    vc.set_mode(Mode::Derivative);
    assert_eq!(vc.consume_bounds_reset(), true);
    vc.set_mode(Mode::Derivative);
    assert_eq!(vc.consume_bounds_reset(), false);
    vc.set_mode(Mode::Value);
    vc.set_mode(Mode::Value);
    assert_eq!(vc.consume_bounds_reset(), true);
    assert_eq!(vc.consume_bounds_reset(), false);
}

#[test]
fn switching_to_a_different_mode_always_raises_the_flag() {
    let mut vc = ViewController::new();
    vc.set_mode(Mode::Derivative);
    vc.consume_bounds_reset();
    vc.set_mode(Mode::Value);
    assert_eq!(vc.mode(), Mode::Value);
    assert_eq!(vc.consume_bounds_reset(), true);
}
