use deathloop_invader_tool::text::{to_wstr, wide, wide_names};

#[test]
fn wide_strings_end_at_the_first_zero() {
    assert_eq!(wide(&[0x48, 0x69, 0, 0x41]), "Hi");
    assert_eq!(wide(&[0x41, 0x42]), "AB");
    assert_eq!(wide(&[0xD800, 0x41, 0]), "\u{FFFD}A");
}

#[test]
fn process_names_match_ignoring_ascii_case() {
    let mut buf = [0u16; 16];
    for (d, s) in buf.iter_mut().zip("DeathLoop.EXE".encode_utf16()) {
        *d = s;
    }
    assert!(wide_names(&buf, "Deathloop.exe"));
    assert!(!wide_names(&buf, "Deathloop.ex"));
    assert!(!wide_names(&buf, "Deathl00p.exe"));
}

#[test]
fn to_wstr_is_utf16_with_terminator() {
    assert_eq!(to_wstr("Hi"), vec![0x48, 0x69, 0]);
    assert_eq!(to_wstr(""), vec![0]);
    assert_eq!(to_wstr("é😀"), vec![0xE9, 0xD83D, 0xDE00, 0]);
    let s = "Alpha Wolf's Invader Tool Overlay";
    let mut expected: Vec<u16> = s.encode_utf16().collect();
    expected.push(0);
    assert_eq!(to_wstr(s), expected);
}

#[test]
fn surrogate_pairs_decode_to_one_character() {
    assert_eq!(wide(&[0xD83D, 0xDE00, 0]), "😀");
    assert_eq!(wide(&[0xDE00, 0xD83D]), "\u{FFFD}\u{FFFD}");
    assert_eq!(wide(&[0xD83D, 0x41, 0]), "\u{FFFD}A");
    assert_eq!(wide(&[0xE9, 0xFFFF]), "é\u{FFFF}");
}

#[test]
fn wide_reads_back_what_to_wstr_wrote() {
    for s in ["", "Colt", "Juli é", "😀 and ñ", "Deathloop.exe"] {
        let w = to_wstr(s);
        assert_eq!(wide(&w), s);
        assert_eq!(wide(&w[..w.len() - 1]), s);
    }
}
