use localdesktop::lines::split_lines;
use localdesktop::numbers::{parse_number, to_dec};
use localdesktop::text::space;

#[test]
fn space_is_the_white_space_property() {
    let mut u: u32 = 0;
    while u <= 0x10ffff {
        if let Some(c) = char::from_u32(u) {
            assert_eq!(space(c), c.is_whitespace());
        }
        u += 1;
    }
}

#[test]
fn lines_drop_their_ends() {
    assert_eq!(split_lines("a\r\nb\n\nc"), vec!["a", "b", "", "c"]);
    assert_eq!(to_dec(120), "120");
    assert_eq!(parse_number("+12", 12), Some(12));
    assert_eq!(parse_number("13", 12), None);
}
