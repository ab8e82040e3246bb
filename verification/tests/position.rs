use trust_eval::position::{offset_to_position, position_to_offset, Position};

#[test]
fn line_character_offset_roundtrip_ascii() {
    let source = "PROGRAM Main\nVAR\n  x : INT;\nEND_VAR\n";
    let position = Position {
        line: 2,
        character: 2,
    };
    let offset = position_to_offset(source, position.clone()).expect("offset");
    let roundtrip = offset_to_position(source, offset);
    assert_eq!(roundtrip, position);
}

#[test]
fn line_character_offset_roundtrip_utf16() {
    let source = "PROGRAM Main\nVAR\n  emoji : STRING := '😀';\nEND_VAR\n";
    let position = Position {
        line: 2,
        character: 25,
    };
    let offset = position_to_offset(source, position.clone()).expect("offset");
    let roundtrip = offset_to_position(source, offset);
    assert_eq!(roundtrip, position);
}

#[test]
fn position_to_offset_clamps_inside_utf16_surrogate_pair() {
    let source = "😀a";
    let offset = position_to_offset(
        source,
        Position {
            line: 0,
            character: 1,
        },
    )
    .expect("offset");
    assert_eq!(offset, 0);
}

#[test]
fn offsets_are_bytes() {
    let source = "ab\n😀c\n";
    assert_eq!(position_to_offset(source, Position { line: 1, character: 2 }), Some(7));
    assert_eq!(position_to_offset(source, Position { line: 1, character: 3 }), Some(8));
    // past the end of a line: the line's end
    assert_eq!(position_to_offset(source, Position { line: 0, character: 9 }), Some(2));
    // the last, empty line exists; the one after it does not
    assert_eq!(position_to_offset(source, Position { line: 2, character: 0 }), Some(9));
    assert_eq!(position_to_offset(source, Position { line: 3, character: 0 }), None);
    assert_eq!(offset_to_position(source, 7), Position { line: 1, character: 2 });
    // inside a character: before it
    assert_eq!(offset_to_position(source, 5), Position { line: 1, character: 0 });
    assert_eq!(offset_to_position(source, 100), Position { line: 2, character: 0 });
}
