use promethee::encoding::{decode_cp437, decode_windows1252, read_utf16_text, utf16_file_bytes, windows1252_file_bytes};
use promethee::lgpo::{import_args, import_outcome, LGPOCommands};
use promethee::text::{replace_first_line, replace_str, split_str, trimmed_lines_exec};

#[test]
fn utf16_files_are_written_with_a_byte_order_mark() {
    assert_eq!(utf16_file_bytes("A"), vec![0xFF, 0xFE, 0x41, 0x00]);
    assert_eq!(utf16_file_bytes("é😀"), vec![0xFF, 0xFE, 0xE9, 0x00, 0x3D, 0xD8, 0x00, 0xDE]);
}

#[test]
fn utf16_files_are_read_without_mark_or_carriage_returns() {
    let bytes = utf16_file_bytes("[Unicode]\r\nUnicode=yes\r\n");
    assert_eq!(read_utf16_text(&bytes).unwrap(), "[Unicode]\nUnicode=yes\n");
    let bad = vec![0x00, 0xD8, 0x41, 0x00];
    assert!(read_utf16_text(&bad).is_err());
    assert_eq!(read_utf16_text(&[0x41, 0x00, 0x42]).unwrap(), "A");
}

#[test]
fn windows1252_files_use_crlf() {
    assert_eq!(windows1252_file_bytes("é\nb"), vec![0xE9, b'\r', b'\n', b'b']);
    assert_eq!(decode_windows1252(&[0x80, b'a']), "€a");
    assert_eq!(decode_cp437(&[0x82, b'x']), "éx");
}

#[test]
fn text_helpers() {
    assert_eq!(replace_str("a\r\nb\r\n", "\r\n", "\n"), "a\nb\n");
    assert_eq!(replace_str("aaa", "aa", "b"), "ba");
    assert_eq!(replace_str("abc", "", "-"), "-a-b-c-");
    assert_eq!(replace_str("", "", "-"), "-");
    assert_eq!(replace_str("é!", "", "+"), "é!".replace("", "+"));
    assert_eq!(split_str("abc", ""), vec!["", "a", "b", "c", ""]);
    assert_eq!(split_str("", ""), "".split("").collect::<Vec<_>>());
    assert_eq!(split_str("a,b", ","), vec!["a", "b"]);
    assert_eq!(replace_first_line("h1,h2\r\n1,2\n", "A,B"), "A,B\n1,2");
    assert_eq!(replace_first_line("", "A"), "");
    assert_eq!(trimmed_lines_exec(" a \n\nb"), vec!["a".to_string(), "".to_string(), "b".to_string()]);
}

#[test]
fn lgpo_imports_are_checked() {
    assert_eq!(
        import_args(LGPOCommands::AdvancedAuditing, "C:\\a.csv"),
        vec!["/ac".to_string(), "C:\\a.csv".to_string(), "/v".to_string()]
    );
    assert!(import_outcome(LGPOCommands::LGPOText, "en-US", "POLICY SAVED.\r\n", "").is_ok());
    assert_eq!(
        import_outcome(LGPOCommands::LGPOText, "en-US", "", "").unwrap_err(),
        "Failed to import LGPO text"
    );
    assert!(import_outcome(LGPOCommands::SecurityTemplate, "fr-FR", "Terminé : 100 pour cent", "").is_ok());
    assert_eq!(
        import_outcome(LGPOCommands::AdvancedAuditing, "fr-FR", "", "L'erreur 0x80070057").unwrap_err(),
        "Failed to import advanced auditing settings"
    );
}
