use martin::text::is_white_space;

#[test]
fn white_space_agrees_with_std_on_every_character() {
    for u in 0u32..=0x10FFFF {
        if let Some(c) = char::from_u32(u) {
            assert_eq!(is_white_space(c), c.is_whitespace(), "U+{:04X}", u);
        }
    }
}
