use wayland_proxy::notify::recovered_body;
use wayland_proxy::recorder::{init, record_line, RecordPath};
use wayland_proxy::schema::Direction;
use wayland_proxy::text::{decimal_text, hex_encode, is_whitespace, trim};

#[test]
fn white_space_is_what_unicode_says() {
    for code in 0..=0x3_0000u32 {
        if let Some(c) = char::from_u32(code) {
            assert_eq!(is_whitespace(c), c.is_whitespace());
        }
    }
}

#[test]
fn texts_are_trimmed_at_both_ends() {
    assert_eq!(trim("  a b\t\n"), "a b");
    assert_eq!(trim(" \u{a0} "), "");
    assert_eq!(trim("a"), "a");
}

#[test]
fn numbers_are_padded_to_their_width() {
    assert_eq!(decimal_text(0, 0), "0");
    assert_eq!(decimal_text(0, 6), "000000");
    assert_eq!(decimal_text(1234, 6), "001234");
    assert_eq!(decimal_text(u64::MAX, 6), "18446744073709551615");
}

#[test]
fn bytes_are_shown_in_hexadecimal() {
    assert_eq!(hex_encode(&[]), "");
    assert_eq!(hex_encode(&[0x00, 0x0f, 0xa5, 0xff]), "000fa5ff");
}

#[test]
fn an_explicit_path_wins_over_the_environment() {
    let mut path = RecordPath::new();
    assert_eq!(path.resolve(Some("env".to_string())), Some("env".to_string()));
    init(&mut path, Some("flag".to_string()));
    assert_eq!(path.resolve(Some("env".to_string())), Some("flag".to_string()));
}

#[test]
fn a_record_line_shows_everything_about_a_message() {
    let line = record_line(
        12,
        34,
        Direction::ClientToHost,
        "RELAYED",
        "wl_surface",
        "commit",
        4,
        6,
        0,
        &[0xab, 0x01],
    );
    assert_eq!(
        line,
        "12.000034\tClientToHost\tRELAYED\twl_surface.commit\tsender=4\topcode=6\tfds=0\tbytes=ab01"
    );
}

#[test]
fn the_notification_names_the_process_where_it_is_known() {
    assert_eq!(
        recovered_body(Some("firefox\n")),
        "firefox reconnected after the compositor restarted."
    );
    assert_eq!(recovered_body(None), "A client reconnected after the compositor restarted.");
}
