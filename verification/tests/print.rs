use neophyte::event::HlAttrDefine;
use neophyte::ui::print::{hl_attr_to_colorspec, u64_to_color, RgbColor};

#[test]
fn color_components() {
    assert_eq!(u64_to_color(0x12_34_56), RgbColor { r: 0x12, g: 0x34, b: 0x56 });
    assert_eq!(u64_to_color(0xff_00_00_01), RgbColor { r: 0, g: 0, b: 1 });
}

#[test]
fn colorspec_of_a_highlight() {
    let mut hl = HlAttrDefine::new();
    hl.rgb_attr.foreground = Some(0x010203);
    hl.rgb_attr.bold = Some(true);
    let spec = hl_attr_to_colorspec(&hl);
    assert_eq!(spec.fg, Some(RgbColor { r: 1, g: 2, b: 3 }));
    assert_eq!(spec.bg, None);
    assert!(spec.bold && !spec.italic && !spec.underline && !spec.strikethrough);
    hl.rgb_attr.reverse = Some(true);
    hl.rgb_attr.background = Some(0x0a0b0c);
    let spec = hl_attr_to_colorspec(&hl);
    assert_eq!(spec.fg, Some(RgbColor { r: 10, g: 11, b: 12 }));
    assert_eq!(spec.bg, Some(RgbColor { r: 1, g: 2, b: 3 }));
}
