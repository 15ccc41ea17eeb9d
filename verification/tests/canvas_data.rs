use remote_canvas::canvas_types::{
    ContextData2D, ContextDataWebgl, ImageData, LineCap, TextAlign, WebglPowerPreference,
};
use remote_canvas::ids::{fresh_uid, Uid};

#[test]
fn pixel_read_and_write() {
    let mut img = ImageData { data: vec![0u32; 16], width: 4, height: 4 };
    img.set_pixel(2, 1, 0xff00ff00);
    assert_eq!(img.get_pixel(2, 1), 0xff00ff00);
    assert_eq!(img.get_pixel(1, 2), 0);
    img.set_pixel(0, 0, 7);
    assert_eq!(img.get_pixel(0, 0), 7);
}

#[test]
fn pixel_out_of_range_reads_zero_and_writes_nothing() {
    let mut img = ImageData { data: vec![5u32; 4], width: 2, height: 2 };
    assert_eq!(img.get_pixel(9, 0), 0);
    assert_eq!(img.get_pixel(0, 9), 0);
    img.set_pixel(9, 9, 123);
    assert_eq!(img.data, vec![5, 5, 5, 5]);
}

#[test]
fn pixel_on_the_boundary_reads_by_row_major_index() {
    // Coordinates are rejected only beyond the bounds, so x == width wraps
    // into the next row by the row-major index.
    let img = ImageData { data: vec![10, 11, 12, 13], width: 2, height: 2 };
    assert_eq!(img.get_pixel(2, 0), 12);
}

#[test]
fn context_defaults() {
    let d2: ContextData2D = Default::default();
    assert!(!d2.alpha && !d2.desynchronized);
    let gl: ContextDataWebgl = Default::default();
    assert!(!gl.alpha && !gl.stencil && !gl.depth);
    assert_eq!(gl.power_preference, WebglPowerPreference::DefaultPower);
}

#[test]
fn attribute_enums_compare() {
    assert_eq!(LineCap::Butt, LineCap::Butt);
    assert_ne!(TextAlign::Start, TextAlign::End);
}

#[test]
fn fresh_ids_carry_version_and_variant_bits() {
    let a: Uid = fresh_uid();
    let b: Uid = fresh_uid();
    assert_eq!(a.hi & 0xf000, 0x4000);
    assert_eq!(a.lo & 0xc000_0000_0000_0000, 0x8000_0000_0000_0000);
    assert!(a.hi != b.hi || a.lo != b.lo);
}
