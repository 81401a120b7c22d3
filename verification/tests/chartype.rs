use nshedit::chartype::{
    charset_of, ct_chr_class, ct_conv_cbuff_resize, ct_conv_wbuff_resize, ct_decode_argv, decode_argv_into,
    ct_decode_string, ct_enc_width, ct_encode_char, ct_encode_string, ct_visual_char,
    ct_visual_string, ct_visual_width, enc_width, encode, iswcntrl, iswprint, mb_cur_max,
    mbstowcs, mbstowcs_len, wcwidth, wide_ranges, zero_width_ranges, Charset, CtBufferT,
    CHTYPE_ASCIICTL, CHTYPE_NL, CHTYPE_NONPRINT, CHTYPE_PRINT, CHTYPE_TAB, CT_BUFSIZ,
    MB_FILL_CHAR, VISUAL_WIDTH_MAX,
};

const BOTH: [Charset; 2] = [Charset::Ascii, Charset::Utf8];

fn empty() -> CtBufferT {
    CtBufferT {
        cbuff: Vec::new(),
        csize: 0,
        wbuff: Vec::new(),
        wsize: 0,
    }
}

#[test]
fn resize_is_grow_only_and_keeps_the_len_invariant() {
    let mut conv = empty();
    assert_eq!(ct_conv_cbuff_resize(&mut conv, CT_BUFSIZ), 0);
    assert_eq!(conv.csize, CT_BUFSIZ);
    assert_eq!(conv.cbuff.len(), conv.csize);
    assert_eq!(ct_conv_cbuff_resize(&mut conv, 4), 0);
    assert_eq!(conv.csize, CT_BUFSIZ);

    assert_eq!(ct_conv_wbuff_resize(&mut conv, 7), 0);
    assert_eq!(conv.wsize, 7);
    assert_eq!(conv.wbuff.len(), 7);
}

#[test]
fn resize_reports_an_impossible_allocation_rather_than_wrapping() {
    let mut conv = empty();
    assert_eq!(ct_conv_wbuff_resize(&mut conv, usize::MAX), -1);
    assert_eq!(conv.wsize, 0);
    assert!(conv.wbuff.is_empty());
    assert_eq!(ct_conv_wbuff_resize(&mut conv, 8), 0);
}

#[test]
fn chr_class_peels_tab_and_newline_before_the_control_test() {
    for cs in BOTH {
        assert_eq!(ct_chr_class(cs, u32::from(b'\t')), CHTYPE_TAB);
        assert_eq!(ct_chr_class(cs, u32::from(b'\n')), CHTYPE_NL);
        assert_eq!(ct_chr_class(cs, 0), CHTYPE_ASCIICTL);
        assert_eq!(ct_chr_class(cs, 0x1B), CHTYPE_ASCIICTL);
        assert_eq!(ct_chr_class(cs, 0x7F), CHTYPE_ASCIICTL);
        assert_eq!(ct_chr_class(cs, u32::from(b'a')), CHTYPE_PRINT);
        assert_eq!(ct_chr_class(cs, MB_FILL_CHAR), CHTYPE_NONPRINT);
        assert_eq!(ct_chr_class(cs, 0xD800), CHTYPE_NONPRINT);
    }
}

#[test]
fn visual_char_writes_caret_forms() {
    for cs in BOTH {
        let mut dst = [0u32; VISUAL_WIDTH_MAX];
        assert_eq!(ct_visual_char(cs, &mut dst, 0), 2);
        assert_eq!(&dst[..2], &[u32::from(b'^'), u32::from(b'@')]);
        assert_eq!(ct_visual_char(cs, &mut dst, u32::from(b'\t')), 2);
        assert_eq!(&dst[..2], &[u32::from(b'^'), u32::from(b'I')]);
        assert_eq!(ct_visual_char(cs, &mut dst, u32::from(b'\n')), 2);
        assert_eq!(&dst[..2], &[u32::from(b'^'), u32::from(b'J')]);
        assert_eq!(ct_visual_char(cs, &mut dst, 0x7F), 2);
        assert_eq!(&dst[..2], &[u32::from(b'^'), u32::from(b'?')]);
        assert_eq!(ct_visual_char(cs, &mut dst, u32::from(b'x')), 1);
        assert_eq!(dst[0], u32::from(b'x'));
        assert_eq!(ct_visual_char(cs, &mut dst[..1], 0x1B), -1);
        assert_eq!(ct_visual_char(cs, &mut [], u32::from(b'x')), -1);
    }
}

#[test]
fn visual_char_truncates_the_hex_field_to_five_digits() {
    for cs in BOTH {
        let mut dst = [0u32; VISUAL_WIDTH_MAX];
        assert_eq!(ct_visual_char(cs, &mut dst, 0xD800), 7);
        let text: String = dst[..7]
            .iter()
            .map(|&c| char::from_u32(c).unwrap())
            .collect();
        assert_eq!(text, "\\U+D800");
        assert_eq!(ct_visual_width(cs, 0xD800), 7);

        assert_eq!(ct_visual_char(cs, &mut dst, MB_FILL_CHAR), 8);
        let text: String = dst[..8]
            .iter()
            .map(|&c| char::from_u32(c).unwrap())
            .collect();
        assert_eq!(text, "\\U+FFFFF");
        assert_eq!(ct_visual_width(cs, MB_FILL_CHAR), 8);
        assert_eq!(ct_visual_char(cs, &mut dst[..7], MB_FILL_CHAR), -1);
    }
}

#[test]
fn visual_width_disagrees_with_visual_char_for_tab_and_newline() {
    for cs in BOTH {
        assert_eq!(ct_visual_width(cs, u32::from(b'\t')), 1);
        assert_eq!(ct_visual_width(cs, u32::from(b'\n')), 0);
        assert_eq!(ct_visual_width(cs, 0x1B), 2);
    }
}

#[test]
fn visual_string_expands_and_terminates() {
    for cs in BOTH {
        let mut conv = empty();
        let s: Vec<u32> = "a\tb".chars().map(u32::from).collect();
        let out = ct_visual_string(cs, Some(&s), &mut conv).unwrap();
        let text: String = out.iter().map(|&c| char::from_u32(c).unwrap()).collect();
        let used = out.len();
        assert_eq!(text, "a^Ib");
        assert_eq!(conv.wbuff[used], 0);
        assert!(conv.wsize >= CT_BUFSIZ);

        assert!(ct_visual_string(cs, None, &mut conv).is_none());
        assert!(ct_visual_string(cs, Some(&[]), &mut conv).unwrap().is_empty());
    }
}

#[test]
fn visual_string_grows_until_the_expansion_fits() {
    let mut conv = empty();
    let s = vec![0x01u32; CT_BUFSIZ];
    let out = ct_visual_string(Charset::Utf8, Some(&s), &mut conv).unwrap();
    assert_eq!(out.len(), 2 * CT_BUFSIZ);
    assert!(out
        .chunks(2)
        .all(|p| p == [u32::from(b'^'), u32::from(b'A')]));
}

#[test]
fn encode_and_decode_round_trip_ascii() {
    for cs in BOTH {
        let mut conv = empty();
        let s: Vec<u32> = "hello".chars().map(u32::from).collect();
        assert_eq!(ct_encode_string(cs, Some(&s), &mut conv).unwrap(), b"hello");
        assert_eq!(conv.cbuff[5], 0);
        assert!(ct_encode_string(cs, None, &mut conv).is_none());

        assert_eq!(
            ct_decode_string(cs, Some(b"hello"), &mut conv).unwrap(),
            &s[..]
        );
        assert_eq!(conv.wbuff[5], 0);
        assert!(ct_decode_string(cs, None, &mut conv).is_none());
        assert_eq!(&conv.wbuff[..5], &s[..]);
    }
}

#[test]
fn decode_argv_packs_end_to_end_and_keeps_null_slots() {
    for cs in BOTH {
        let mut conv = empty();
        let argv = [Some(&b"one"[..]), None, Some(&b"two"[..])];
        let out = ct_decode_argv(cs, &argv, &mut conv).unwrap();
        assert_eq!(out, vec![Some(0), None, Some(4)]);
        assert_eq!(&conv.wbuff[..8], &[111, 110, 101, 0, 116, 119, 111, 0]);
        assert_eq!(ct_decode_argv(cs, &[], &mut conv).unwrap(), Vec::new());
    }
}

#[test]
fn encode_char_rejects_an_empty_destination() {
    for cs in BOTH {
        assert_eq!(ct_encode_char(cs, &mut [], u32::from(b'a')), -1);
        assert_eq!(ct_encode_char(cs, &mut [], MB_FILL_CHAR), -1);
        let mut dst = [0u8; 4];
        assert_eq!(ct_encode_char(cs, &mut dst, u32::from(b'a')), 1);
        assert_eq!(dst[0], b'a');
        assert_eq!(ct_encode_char(cs, &mut dst, 0xD800), 0);
        assert_eq!(ct_enc_width(cs, 0xD800), 0);
        assert_eq!(ct_enc_width(cs, 0), 1);
    }
}

#[test]
fn charset_is_parsed_from_a_posix_locale_name() {
    for name in ["en_US.UTF-8", "C.utf8", "de_DE.utf-8@euro"] {
        assert_eq!(charset_of(name), Charset::Utf8, "{name}");
    }
    for name in ["C", "POSIX", "en_US", "en_US.ISO-8859-1", "ja_JP.eucJP"] {
        assert_eq!(charset_of(name), Charset::Ascii, "{name}");
    }
}

#[test]
fn utf8_conversion_is_strict() {
    let cs = Charset::Utf8;
    assert_eq!(mbstowcs_len(cs, "€".as_bytes()), Some(1));
    assert_eq!(enc_width(cs, 0x20AC), Some(3));
    let mut dst = [0u8; 4];
    assert_eq!(encode(cs, &mut dst, 0x20AC), Some(3));
    assert_eq!(&dst[..3], "€".as_bytes());
    for bad in [
        &b"\xC0\xAF"[..],
        &b"\xED\xA0\x80"[..],
        &b"\xE2\x82"[..],
        &b"\x80"[..],
    ] {
        assert_eq!(mbstowcs_len(cs, bad), None);
    }
    assert_eq!(mbstowcs_len(Charset::Ascii, "é".as_bytes()), None);
    assert_eq!(enc_width(Charset::Ascii, 0xE9), None);
}

#[test]
fn locale_predicates_follow_the_charset() {
    assert!(iswcntrl(Charset::Utf8, 0x85));
    assert!(!iswcntrl(Charset::Ascii, 0x85));
    assert!(!iswprint(Charset::Ascii, 0xE9));
    assert!(iswprint(Charset::Utf8, 0xE9));
    assert!(!iswprint(Charset::Utf8, MB_FILL_CHAR));
    assert_eq!(wcwidth(Charset::Utf8, 0x4E00), 2);
    assert_eq!(wcwidth(Charset::Utf8, 0x0301), 0);
    assert_eq!(wcwidth(Charset::Utf8, u32::from(b'a')), 1);
    assert_eq!(wcwidth(Charset::Ascii, 0xE9), -1);
}

#[test]
fn width_tables_are_sorted_and_disjoint() {
    for table in [zero_width_ranges(), wide_ranges()] {
        for pair in table.windows(2) {
            assert!(pair[0].0 <= pair[0].1);
            assert!(pair[0].1 < pair[1].0, "{:x?} then {:x?}", pair[0], pair[1]);
        }
    }
}

#[test]
fn every_encodable_character_decodes_back() {
    for cs in BOTH {
        for c in [0x41u32, 0x7F, 0xE9, 0x20AC, 0x1F600, 0x10FFFF] {
            let mut dst = [0u8; 4];
            if let Some(n) = encode(cs, &mut dst, c) {
                let mut wide = [0u32; 2];
                assert_eq!(mbstowcs(cs, &mut wide, &dst[..n]), Some(1));
                assert_eq!(wide, [c, 0]);
            }
        }
    }
}

#[test]
fn multibyte_limits_follow_the_charset() {
    assert_eq!(mb_cur_max(Charset::Ascii), 1);
    assert_eq!(mb_cur_max(Charset::Utf8), 4);
    assert_eq!(enc_width(Charset::Utf8, 0x7FF), Some(2));
    assert_eq!(enc_width(Charset::Utf8, 0x10000), Some(4));
    assert_eq!(enc_width(Charset::Utf8, 0x110000), None);
}

#[test]
fn mbstowcs_stops_when_the_destination_is_full() {
    let mut wide = [9u32; 2];
    assert_eq!(mbstowcs(Charset::Utf8, &mut wide, b"abc"), Some(2));
    assert_eq!(wide, [97, 98]);
    let mut wide = [9u32; 4];
    assert_eq!(mbstowcs(Charset::Utf8, &mut wide, b"ab"), Some(2));
    assert_eq!(wide, [97, 98, 0, 9]);
}

#[test]
fn decoding_arguments_into_a_roomy_buffer() {
    let mut conv = CtBufferT::new();
    ct_conv_wbuff_resize(&mut conv, 16);
    let argv = [Some(&b"ab"[..]), None, Some(&b"c"[..])];
    let slots = decode_argv_into(Charset::Utf8, &argv, &mut conv, Vec::new(), 1 + 3 + 2).unwrap();
    assert_eq!(slots, vec![Some(0), None, Some(3)]);
    assert_eq!(&conv.wbuff[..5], &[97, 98, 0, 99, 0]);

    let bad = [Some(&b"a"[..]), Some(&[0xffu8][..])];
    assert!(decode_argv_into(Charset::Utf8, &bad, &mut conv, Vec::new(), 1 + 2 + 2).is_none());
}
