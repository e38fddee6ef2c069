//! Tests of the line codec: legacy parsing, current-format round trips,
//! and decode failures.

use hashcache::FileInfo;

fn units(s: &str) -> Vec<u16> {
    s.encode_utf16().collect()
}

#[test]
fn test_serde_fileinfo() {
    let f = FileInfo::try_from_line(
        "    556602 bytes: 5172bde22e6ca41d60b4682cafa928add3e94bf6 ..\\..\\10.1007_1-4020-7830-7.pdf",
    )
    .unwrap();
    assert_eq!(f.path, units("..\\..\\10.1007_1-4020-7830-7.pdf"));
    assert_eq!(
        f.hash,
        Some("5172bde22e6ca41d60b4682cafa928add3e94bf6".to_owned())
    );
    assert_eq!(f.size, 556602);
    assert_eq!(f.modified, None);

    let f = FileInfo::try_from_line("    556602 bytes: ..\\..\\10.1007_1-4020-7830-7.pdf").unwrap();
    assert_eq!(f.path, units("..\\..\\10.1007_1-4020-7830-7.pdf"));
    assert_eq!(f.hash, None);
    assert_eq!(f.size, 556602);
    assert_eq!(f.modified, None);

    let f = FileInfo::try_from_line(
        "    556602 bytes: 5172bde22e6ca41d60b4682cafa928add3e94bf6 ..\\..\\10.1007_1- 4020-7830-7.pdf",
    )
    .unwrap();
    assert_eq!(f.path, units("..\\..\\10.1007_1- 4020-7830-7.pdf"));
    assert_eq!(
        f.hash,
        Some("5172bde22e6ca41d60b4682cafa928add3e94bf6".to_owned())
    );
    assert_eq!(f.size, 556602);
    assert_eq!(f.modified, None);

    let mut f = FileInfo {
        path: units("C:\\%\\123\u{a4}\u{b3}\u{fe}\u{e4}\u{e9}\u{bb}\u{a4}"),
        hash: Some("abcde".to_owned()),
        modified: Some(10000),
        size: 10000,
    };

    let f_restored = FileInfo::try_from_line(&f.to_line()).unwrap();
    assert_eq!(f.path, f_restored.path);
    assert_eq!(f.hash, f_restored.hash);
    assert_eq!(f.modified, f_restored.modified);
    assert_eq!(f.size, f_restored.size);

    f.hash = None;
    f.modified = None;
    f.path = vec![0x1234, 0x0001, 0x0000, 0xa999, 0x0034];
    let f_restored = FileInfo::try_from_line(&f.to_line()).unwrap();
    assert_eq!(f.path, f_restored.path);
    assert_eq!(f.hash, f_restored.hash);
    assert_eq!(f.modified, f_restored.modified);
    assert_eq!(f.size, f_restored.size);
}

#[test]
fn test_split_line() {
    let f = FileInfo::try_from_line(
        "    556602 bytes: 5172bde22e6ca41d60b4682cafa928add3e94bf6 ..\\..\\10.1007_1-4020-7830-7.pdf",
    )
    .unwrap();
    assert_eq!(f.path, units("..\\..\\10.1007_1-4020-7830-7.pdf"));
    assert_eq!(
        f.hash,
        Some("5172bde22e6ca41d60b4682cafa928add3e94bf6".to_owned())
    );
    assert_eq!(f.size, 556602);
    assert_eq!(f.modified, None);

    let f = FileInfo::try_from_line("    556602 bytes: ..\\..\\10.1007_1-4020-7830-7.pdf").unwrap();
    assert_eq!(f.path, units("..\\..\\10.1007_1-4020-7830-7.pdf"));
    assert_eq!(f.hash, None);
    assert_eq!(f.size, 556602);
    assert_eq!(f.modified, None);

    let f = FileInfo::try_from_line(
        "    556602 bytes: 5172bde22e6ca41d60b4682cafa928add3e94bf6 ..\\..\\10.1007_1- 4020-7830-7.pdf",
    )
    .unwrap();
    assert_eq!(f.path, units("..\\..\\10.1007_1- 4020-7830-7.pdf"));
    assert_eq!(
        f.hash,
        Some("5172bde22e6ca41d60b4682cafa928add3e94bf6".to_owned())
    );
    assert_eq!(f.size, 556602);
    assert_eq!(f.modified, None);

    let mut f = FileInfo {
        path: units("C:\\%\\123"),
        hash: Some("abcde".to_owned()),
        modified: Some(10000),
        size: 10000,
    };

    let f_restored = FileInfo::try_from_line(&f.to_line()).unwrap();
    assert_eq!(f.path, f_restored.path);
    assert_eq!(f.hash, f_restored.hash);
    assert_eq!(f.modified, f_restored.modified);
    assert_eq!(f.size, f_restored.size);

    f.hash = None;
    f.modified = None;
    f.path = vec![0x1234, 0x0001, 0x0000, 0x9999, 0x0034];
    let f_restored = FileInfo::try_from_line(&f.to_line()).unwrap();
    assert_eq!(f.path, f_restored.path);
    assert_eq!(f.hash, f_restored.hash);
    assert_eq!(f.modified, f_restored.modified);
    assert_eq!(f.size, f_restored.size);
}

#[test]
fn encode_exact_line() {
    let f = FileInfo {
        path: units("abc"),
        hash: None,
        modified: None,
        size: 5,
    };
    assert_eq!(f.to_line(), "> 5 | None | None | abc");

    let f = FileInfo {
        path: units("a b"),
        hash: Some("00ff".to_owned()),
        modified: Some(1234567890),
        size: 18446744073709551615,
    };
    assert_eq!(
        f.to_line(),
        "> 18446744073709551615 | 1234567890 | 00ff | a b"
    );
}

#[test]
fn encode_percent_as_escape() {
    let f = FileInfo {
        path: vec![0x25],
        hash: None,
        modified: None,
        size: 0,
    };
    let line = f.to_line();
    assert_eq!(line, "> 0 | None | None | %0025");
    let back = FileInfo::try_from_line(&line).unwrap();
    assert_eq!(back.path, vec![0x25]);
}

#[test]
fn encode_non_printable_units() {
    let f = FileInfo {
        path: vec![0x0000, 0x001f, 0x007f, 0x0080, 0xd800, 0xffff],
        hash: None,
        modified: None,
        size: 1,
    };
    let line = f.to_line();
    assert_eq!(line, "> 1 | None | None | %0000%001f\u{7f}%0080%d800%ffff");
    let back = FileInfo::try_from_line(&line).unwrap();
    assert_eq!(back.path, vec![0x0000, 0x001f, 0x007f, 0x0080, 0xd800, 0xffff]);
}

#[test]
fn decode_current_basic() {
    let f = FileInfo::try_from_line("> 42 | 100 | abc | x").unwrap();
    assert_eq!(f.size, 42);
    assert_eq!(f.modified, Some(100));
    assert_eq!(f.hash, Some("abc".to_owned()));
    assert_eq!(f.path, units("x"));

    // The path field is the remainder of the line: later separators belong
    // to the path.
    let f = FileInfo::try_from_line("> 1 | None | None | a | b").unwrap();
    assert_eq!(f.path, units("a | b"));
}

#[test]
fn decode_current_failures() {
    // Size is not a number.
    assert!(FileInfo::try_from_line("> abc | None | None | x").is_err());
    // Too few fields.
    assert!(FileInfo::try_from_line(">").is_err());
    assert!(FileInfo::try_from_line("> 12").is_err());
    assert!(FileInfo::try_from_line("> 12 | None").is_err());
    assert!(FileInfo::try_from_line("> 12 | None | None").is_err());
    // Modification time is not a number.
    assert!(FileInfo::try_from_line("> 12 | soon | None | x").is_err());
    // Size overflows 64 bits.
    assert!(
        FileInfo::try_from_line("> 18446744073709551616 | None | None | x").is_err()
    );
    // A line starting with the current-format tag never falls back to the
    // legacy format.
    assert!(FileInfo::try_from_line("> 12 bytes: x").is_err());
}

#[test]
fn decode_escape_failures() {
    // Truncated escape.
    assert!(FileInfo::try_from_line("> 1 | None | None | %12").is_err());
    assert!(FileInfo::try_from_line("> 1 | None | None | abc%").is_err());
    // Non-hex and uppercase digits.
    assert!(FileInfo::try_from_line("> 1 | None | None | %12zz").is_err());
    assert!(FileInfo::try_from_line("> 1 | None | None | %00FF").is_err());
}

#[test]
fn decode_legacy_failures() {
    assert!(FileInfo::try_from_line("").is_err());
    assert!(FileInfo::try_from_line("12 bytes x").is_err());
    assert!(FileInfo::try_from_line("abc bytes: x").is_err());
    assert!(FileInfo::try_from_line(" bytes: x").is_err());
    assert!(FileInfo::try_from_line("99999999999999999999 bytes: x").is_err());
}

#[test]
fn decode_legacy_text_paths() {
    // Non-ASCII legacy text becomes UTF-16 code units.
    let f = FileInfo::try_from_line("5 bytes: \u{a4}x").unwrap();
    assert_eq!(f.hash, None);
    assert_eq!(f.path, vec![0x00a4, 0x0078]);

    // A character outside the basic plane becomes a surrogate pair.
    let f = FileInfo::try_from_line("5 bytes: \u{10348}").unwrap();
    assert_eq!(f.path, vec![0xd800, 0xdf48]);

    // An empty remainder is an empty path, not an error.
    let f = FileInfo::try_from_line("5 bytes: ").unwrap();
    assert_eq!(f.path, Vec::<u16>::new());
    assert_eq!(f.hash, None);
}

#[test]
fn decode_current_trims_scalar_fields() {
    let f = FileInfo::try_from_line(">   7   |   9   |   abc   | p").unwrap();
    assert_eq!(f.size, 7);
    assert_eq!(f.modified, Some(9));
    assert_eq!(f.hash, Some("abc".to_owned()));
    // The None sentinel is recognized after trimming, case-sensitively.
    let f = FileInfo::try_from_line("> 7 |  None  |  None  | p").unwrap();
    assert_eq!(f.modified, None);
    assert_eq!(f.hash, None);
    assert!(FileInfo::try_from_line("> 7 | none | None | p").is_err());
    // The path field is taken verbatim.
    let f = FileInfo::try_from_line("> 7 | None | None |  p ").unwrap();
    assert_eq!(f.path, units(" p "));
}

#[test]
fn decode_accepts_leading_plus_sign() {
    let f = FileInfo::try_from_line("> +7 | +9 | None | p").unwrap();
    assert_eq!(f.size, 7);
    assert_eq!(f.modified, Some(9));
    let f = FileInfo::try_from_line("  +12 bytes: x").unwrap();
    assert_eq!(f.size, 12);
    assert!(FileInfo::try_from_line("> -7 | None | None | p").is_err());
    assert!(FileInfo::try_from_line("> ++7 | None | None | p").is_err());
}

#[test]
fn decode_current_truncates_wide_path_chars() {
    // In the current format a raw character above the basic plane is
    // truncated to 16 bits, as the escape scheme expects escapes there.
    let f = FileInfo::try_from_line("> 1 | None | None | \u{10348}").unwrap();
    assert_eq!(f.path, vec![0x0348]);
}
