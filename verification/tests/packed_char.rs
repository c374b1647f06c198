use neophyte::ui::packed_char::{PackedChar, PackedCharContents, U22FromU32Error, U22};

#[test]
fn gets_back_chars() {
    let test_chars = ['\0', '\u{D7FF}', '\u{E000}', '\u{10FFFF}', 'a', '1', '🫠'];
    for c in test_chars {
        let packed = PackedChar::from_char(c);
        assert_eq!(packed.contents(), PackedCharContents::Char(c));
    }
}

#[test]
fn gets_back_indices() {
    let test_indices = [
        U22::max().as_u32(),
        0x3FFFFFu32,
        0,
        69,
        420,
        0b1010101010101010101010,
    ];
    for i in test_indices {
        let packed = PackedChar::try_from(i).unwrap();
        assert_eq!(
            packed.contents(),
            PackedCharContents::U22(U22::try_from(i).unwrap())
        );
    }
}

#[test]
fn fails_out_of_bounds_indices() {
    let test_indices = [U22::max().as_u32() + 1, 0b10101010101010101010101010101010];
    for i in test_indices {
        let packed = PackedChar::try_from(i);
        assert_eq!(packed, Err(U22FromU32Error(i)));
    }
}

#[test]
fn packed_u22_bits_follow_layout() {
    let u = U22::from_u32(0x3F_FFFF).unwrap();
    assert_eq!(U22::from_u32(u.as_u32()), Ok(u));
    assert_eq!(u32::from(U22::from_u32(69).unwrap()), 69);
    let packed = PackedChar::from_u22(u);
    assert_eq!(packed.contents(), PackedCharContents::U22(u));
    let a = PackedChar::from_u22(U22::from_u32(0).unwrap());
    assert_ne!(a, PackedChar::from_char('\0'));
    assert_eq!(a.contents(), PackedCharContents::U22(U22::from_u32(0).unwrap()));
}

#[test]
fn default_packed_char_is_nul() {
    assert_eq!(PackedChar::default().contents(), PackedCharContents::Char('\0'));
    assert_eq!(PackedChar::from('x'), PackedChar::from_char('x'));
}
