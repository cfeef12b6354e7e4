use dcleaner::backup;
use dcleaner::utf16;

#[test]
fn units_agree_with_std() {
    for s in ["", "abc", "日本語", "\u{10000}\u{10ffff}", "a\u{d7ff}\u{e000}\u{ffff}z", "😀!"] {
        let expected: Vec<u16> = s.encode_utf16().collect();
        assert_eq!(utf16::encode(s), expected);
        assert_eq!(utf16::decode(&expected), s);
    }
}

#[test]
fn lonely_surrogates_are_replaced_as_in_std() {
    let cases: [Vec<u16>; 6] = [
        vec![0xd800],
        vec![0xdc00, 0x41],
        vec![0xd800, 0x41],
        vec![0xd800, 0xd800, 0xdc00],
        vec![0xdc00, 0xd800],
        vec![0x41, 0xdfff, 0xdbff, 0xdfff, 0xdbff],
    ];
    for units in cases {
        assert_eq!(utf16::decode(&units), String::from_utf16_lossy(&units), "{:x?}", units);
    }
}

#[test]
fn files_begin_with_the_mark() {
    assert_eq!(utf16::utf16le_with_bom("A日"), [0xff, 0xfe, 0x41, 0x00, 0xe5, 0x65]);
    assert_eq!(utf16::utf16le_with_bom(""), [0xff, 0xfe]);
}

#[test]
fn what_is_written_is_read_back() {
    for s in ["", "Windows Registry Editor Version 5.00\r\n\r\n[HKCU\\日本\\😀]\r\n"] {
        assert_eq!(backup::read_reg_file(&utf16::utf16le_with_bom(s)), s);
    }
}

#[test]
fn an_odd_byte_at_the_end_is_dropped() {
    assert_eq!(backup::read_reg_file(&vec![0xff, 0xfe, 0x41, 0x00, 0x42]), "A");
    assert_eq!(utf16::read_marked(&vec![0xff, 0xfe]), "");
}

#[test]
fn files_without_the_mark_are_utf8() {
    assert_eq!(backup::read_reg_file(&"REGEDIT4\n日".as_bytes().to_vec()), "REGEDIT4\n日");
    assert_eq!(backup::read_reg_file(&vec![0x41, 0xff, 0x42]), "A\u{fffd}B");
    assert_eq!(backup::read_reg_file(&vec![0xff]), "\u{fffd}");
}
