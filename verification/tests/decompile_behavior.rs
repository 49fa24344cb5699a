use dxb_adapter::decompile;

/// Removes all spaces and line breaks: the token characters alone.
fn without_layout(s: &str) -> String {
    s.chars().filter(|c| *c != ' ' && *c != '\n').collect()
}

/// Removes every color marker: an escape character and the letter after it.
fn without_marks(s: &str) -> String {
    let mut out = String::new();
    let mut chars = s.chars();
    while let Some(c) = chars.next() {
        if c == '\u{1b}' {
            let _ = chars.next();
        } else {
            out.push(c);
        }
    }
    out
}

#[test]
fn empty_buffer_renders_empty() {
    assert_eq!(decompile(&[], false, false, false), "");
    assert_eq!(decompile(&[], true, true, true), "");
}

#[test]
fn keyword_literals() {
    assert_eq!(decompile(&[0x01, 0x02, 0x03], false, false, false), "true false null ");
}

#[test]
fn int8_literal() {
    assert_eq!(decompile(&[0x10, 42], false, false, false), "42 ");
}

#[test]
fn int32_literal_little_endian() {
    assert_eq!(decompile(&[0x11, 0x01, 0x00, 0x01, 0x00], false, false, false), "65537 ");
    assert_eq!(
        decompile(&[0x11, 0xff, 0xff, 0xff, 0xff], false, false, false),
        "4294967295 ",
    );
}

#[test]
fn text_literal() {
    assert_eq!(decompile(&[0x20, 3, b'a', b'b', b'c'], false, false, false), "\"abc\" ");
}

#[test]
fn text_literal_hides_unprintable_bytes() {
    assert_eq!(decompile(&[0x20, 2, 0x1b, 0xff], false, false, false), "\"??\" ");
}

#[test]
fn slot_without_metadata_is_numeric() {
    assert_eq!(decompile(&[0x30, 7], false, false, false), "#7 ");
}

#[test]
fn slot_resolution_uses_label() {
    let bytes = [0x31, 7, 3, b'c', b'n', b't', 0x30, 7];
    assert_eq!(decompile(&bytes, false, false, true), "#7=cnt cnt ");
    assert_eq!(decompile(&bytes, false, false, false), "#7=cnt #7 ");
}

#[test]
fn slot_resolution_falls_back_without_metadata() {
    // No label binds index 5: resolution falls back to the numeric index
    // and reports no error.
    assert_eq!(decompile(&[0x30, 5], false, false, true), "#5 ");
    assert_eq!(decompile(&[0x30, 5], false, false, false), "#5 ");
}

#[test]
fn later_label_replaces_earlier() {
    let bytes = [0x31, 1, 1, b'a', 0x31, 1, 1, b'b', 0x30, 1];
    assert_eq!(decompile(&bytes, false, false, true), "#1=a #1=b b ");
}

#[test]
fn unknown_opcode_is_marked_and_decoding_continues() {
    assert_eq!(decompile(&[0xbb, 0x01], false, false, false), "<bad 187> true ");
}

#[test]
fn truncated_operand_is_marked() {
    // The opcode declares a four-byte operand but only one byte remains:
    // the output holds everything up to the break plus a visible marker.
    assert_eq!(decompile(&[0x01, 0x11, 0x01], false, false, false), "true <truncated> ");
}

#[test]
fn truncated_text_is_marked() {
    assert_eq!(decompile(&[0x20, 5, b'a'], false, false, false), "<truncated> ");
}

#[test]
fn formatted_block_layout() {
    let bytes = [0x40, 0x10, 42, 0x50, 0x41];
    assert_eq!(decompile(&bytes, false, false, false), "( 42 ; ) ");
    assert_eq!(decompile(&bytes, true, false, false), "(\n  42 ;\n)\n");
}

#[test]
fn formatting_changes_only_whitespace() {
    let bytes = [0x40, 0x20, 2, b'h', b'i', 0x50, 0x40, 0x10, 9, 0x50, 0x41, 0x41, 0xbb];
    let plain = decompile(&bytes, false, false, false);
    let pretty = decompile(&bytes, true, false, false);
    assert_ne!(plain, pretty);
    assert_eq!(without_layout(&plain), without_layout(&pretty));
    let colored_plain = decompile(&bytes, false, true, true);
    let colored_pretty = decompile(&bytes, true, true, true);
    assert_eq!(without_layout(&colored_plain), without_layout(&colored_pretty));
}

#[test]
fn color_markers_wrap_each_token() {
    assert_eq!(decompile(&[0x01], false, true, false), "\u{1b}ltrue\u{1b}x ");
    assert_eq!(decompile(&[0x30, 7], false, true, false), "\u{1b}s#7\u{1b}x ");
    assert_eq!(decompile(&[0xbb], false, true, false), "\u{1b}e<bad 187>\u{1b}x ");
}

#[test]
fn color_markers_strip_away() {
    let bytes = [0x40, 0x20, 2, b'h', b'i', 0x50, 0x30, 3, 0x41, 0xbb, 0x11, 0x01];
    for formatted in [false, true] {
        for resolve in [false, true] {
            let colored = decompile(&bytes, formatted, true, resolve);
            let plain = decompile(&bytes, formatted, false, resolve);
            assert_ne!(colored, plain);
            assert_eq!(without_marks(&colored), plain);
        }
    }
}

#[test]
fn stray_block_end_keeps_depth_at_zero() {
    assert_eq!(decompile(&[0x41, 0x10, 1], true, false, false), ")\n1 ");
}

#[test]
fn calls_are_independent() {
    let first = decompile(&[0x10, 1], false, false, false);
    let _other = decompile(&[0x31, 1, 1, b'z', 0x30, 1], false, false, true);
    let again = decompile(&[0x10, 1], false, false, false);
    assert_eq!(first, again);
    // A label bound in an earlier call does not leak into a later one.
    assert_eq!(decompile(&[0x30, 1], false, false, true), "#1 ");
}
