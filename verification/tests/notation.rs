//! Keys and numbers as they are written.
use tikv_ctl::bytes;
use tikv_ctl::codec;
use tikv_ctl::codec::CodecError;
use tikv_ctl::error::CtlError;
use tikv_ctl::escape::{escape, try_unescape, unescape};
use tikv_ctl::hex::{escaped_to_hex, from_hex, hex_to_escaped, try_from_hex, HexError};
use tikv_ctl::keys;
use tikv_ctl::keys::KeyError;
use tikv_ctl::number::parse_u64;
use tikv_ctl::size::convert_gbmb;
use tikv_ctl::text;
use tikv_ctl::types::Key;

#[test]
fn escape_writes_printable_bytes_as_they_are() {
    assert_eq!(escape(b"abc"), "abc");
    assert_eq!(escape(b"\n\r\t\"\\'"), "\\n\\r\\t\\\"\\\\'");
    assert_eq!(escape(b"\x00\x07\x7f\x80\xff"), "\\000\\007\\177\\200\\377");
}

#[test]
fn unescape_undoes_escape_on_all_bytes() {
    let all: Vec<u8> = (0..=255).collect();
    assert_eq!(unescape(&escape(&all)), all);
}

#[test]
fn unescape_refuses_what_is_cut_short() {
    assert_eq!(unescape("\\303\\244"), b"\xc3\xa4".to_vec());
    assert_eq!(try_unescape("a\\"), None);
    assert_eq!(try_unescape("\\12"), None);
    assert_eq!(try_unescape("\\q12"), None);
    assert_eq!(try_unescape(""), Some(vec![]));
    assert_eq!(try_unescape("\u{e4}"), Some(vec![0xc3, 0xa4]));
}

#[test]
fn hex_keys_are_read() {
    assert_eq!(from_hex("666f6F"), b"foo".to_vec());
    assert_eq!(from_hex("66 6\r\nf\t"), b"fo".to_vec());
    assert_eq!(from_hex(""), Vec::<u8>::new());
    assert_eq!(try_from_hex("666"), Err(HexError::InvalidLength));
    assert_eq!(try_from_hex("66y6"), Err(HexError::InvalidCharacter('y', 2)));
    assert_eq!(try_from_hex("6\u{e4}6"), Err(HexError::InvalidCharacter('\u{e4}', 1)));
}

#[test]
fn prefixed_hex_keys_are_read_without_their_prefix() {
    assert_eq!(from_hex("0x4142"), vec![0x41, 0x42]);
    assert_eq!(from_hex("0x4142"), from_hex("4142"));
    assert_eq!(from_hex("0x"), Vec::<u8>::new());
    assert_eq!(hex_to_escaped("0x7aff"), Ok("z\\377".to_owned()));
    assert_eq!(try_from_hex("0x1"), Err(HexError::InvalidLength));
    assert_eq!(try_from_hex("0x1y"), Err(HexError::InvalidCharacter('y', 1)));
    assert_eq!(try_from_hex("0x\u{20ac}"), Err(HexError::InvalidCharacter('\u{20ac}', 0)));
    assert_eq!(try_from_hex("0x0x41"), Err(HexError::InvalidCharacter('x', 1)));
    assert_eq!(try_from_hex("0X41"), Err(HexError::InvalidCharacter('X', 1)));
}

#[test]
fn keys_are_converted_both_ways() {
    assert_eq!(hex_to_escaped("7a00"), Ok("z\\000".to_owned()));
    assert_eq!(escaped_to_hex("z\\000\\377"), Ok("7A00FF".to_owned()));
    assert_eq!(escaped_to_hex("z\\"), Err(CtlError::BadEscape));
    assert_eq!(hex_to_escaped("7"), Err(CtlError::Hex(HexError::InvalidLength)));
    let all: Vec<u8> = (0..=255).collect();
    let upper = escaped_to_hex(&escape(&all)).unwrap();
    assert_eq!(from_hex(&upper), all);
    assert_eq!(from_hex(&upper.to_lowercase()), all);
}

#[test]
fn numbers_are_read_as_the_standard_library_reads_them() {
    let texts = [
        "0",
        "007",
        "+5",
        "++5",
        "+",
        "",
        "-1",
        "1 ",
        " 1",
        "1_0",
        "12a",
        "18446744073709551615",
        "18446744073709551616",
        "99999999999999999999999999",
        "\u{663}",
    ];
    for t in texts {
        assert_eq!(parse_u64(t), t.parse::<u64>().ok(), "{}", t);
    }
    assert_eq!(parse_u64("18446744073709551615"), Some(u64::MAX));
}

#[test]
fn numbers_are_printed_and_read_back() {
    for n in [0, 9, 10, 99, 100, 1234567890, u64::MAX] {
        let mut out = String::new();
        text::push_decimal(&mut out, n);
        assert_eq!(out, n.to_string());
        assert_eq!(parse_u64(&out), Some(n));
    }
}

#[test]
fn texts_are_quoted_and_listed() {
    let mut out = String::new();
    text::push_quoted(&mut out, "a\\000\"b");
    assert_eq!(out, format!("{:?}", "a\\000\"b"));
    let mut out = String::new();
    text::push_byte_list(&mut out, b"hi!");
    assert_eq!(out, format!("{:?}", b"hi!".to_vec()));
    let mut out = String::new();
    text::push_byte_list(&mut out, b"");
    assert_eq!(out, "[]");
    let mut out = String::new();
    text::push_optional(&mut out, None);
    text::push_optional(&mut out, Some("x"));
    assert_eq!(out, "NoneSome(x)");
    assert!(text::same_text("lock", "lock"));
    assert!(!text::same_text("lock", "locks"));
}

fn by_float(bytes: u64) -> String {
    const GB: u64 = 1024 * 1024 * 1024;
    const MB: u64 = 1024 * 1024;
    if bytes < MB {
        return bytes.to_string();
    }
    let mb = if bytes % GB == 0 {
        String::new()
    } else {
        format!("{:.3} MB ", (bytes % GB) as f64 / MB as f64)
    };
    let gb = if bytes / GB == 0 { String::new() } else { format!("{} GB ", bytes / GB) };
    format!("{}{}", gb, mb)
}

#[test]
fn sizes_are_printed_in_gigabytes_and_megabytes() {
    assert_eq!(convert_gbmb(0), "0");
    assert_eq!(convert_gbmb(1048575), "1048575");
    assert_eq!(convert_gbmb(1048576), "1.000 MB ");
    assert_eq!(convert_gbmb(1572864), "1.500 MB ");
    assert_eq!(convert_gbmb(1073741824), "1 GB ");
    assert_eq!(convert_gbmb(1073741824 + 1048576), "1 GB 1.000 MB ");
    assert_eq!(convert_gbmb(1073741823), "1024.000 MB ");
    assert_eq!(convert_gbmb(u64::MAX), "17179869183 GB 1024.000 MB ");
}

#[test]
fn sizes_are_rounded_as_decimal_printing_rounds_them() {
    for i in 0..3000 {
        let tie = 1048576 + 65536 * i;
        for bytes in [tie - 1, tie, tie + 1, tie * 4097 + i] {
            assert_eq!(convert_gbmb(bytes), by_float(bytes), "{}", bytes);
        }
    }
    let mut n: u64 = 1;
    for _ in 0..20000 {
        n = n.wrapping_mul(6364136223846793005).wrapping_add(1442695040888963407);
        assert_eq!(convert_gbmb(n >> (n % 40)), by_float(n >> (n % 40)));
    }
}

#[test]
fn byte_strings_are_ordered_as_slices() {
    let samples: [&[u8]; 6] = [b"", b"a", b"ab", b"b", b"\xff", b"a\x00"];
    for a in samples {
        for b in samples {
            assert_eq!(bytes::is_less(a, b), a < b);
            assert_eq!(bytes::same_bytes(a, b), a == b);
            assert_eq!(bytes::starts_with(a, b), a.starts_with(b));
        }
    }
}

#[test]
fn encoded_bytes_keep_their_order_and_are_read_back() {
    assert_eq!(codec::encode_bytes(b""), vec![0, 0, 0, 0, 0, 0, 0, 0, 247]);
    assert_eq!(codec::encode_bytes(b"abc"), b"abc\x00\x00\x00\x00\x00\xfa".to_vec());
    assert_eq!(
        codec::encode_bytes(b"12345678"),
        b"12345678\xff\x00\x00\x00\x00\x00\x00\x00\x00\xf7".to_vec()
    );
    for key in [&b""[..], b"a", b"1234567", b"12345678", b"123456789"] {
        assert_eq!(codec::decode_bytes(&codec::encode_bytes(key)), Ok(key.to_vec()));
    }
    assert_eq!(codec::decode_bytes(b"1234"), Err(CodecError::UnexpectedEof));
    assert_eq!(codec::decode_bytes(b"\0\0\0\0\0\0\0\0\xf6"), Err(CodecError::KeyPadding));
    assert_eq!(codec::decode_bytes(b"a\0\0\0\0\0\0\x01\xf8"), Err(CodecError::KeyPadding));
}

#[test]
fn numbers_in_keys() {
    let mut out = vec![];
    codec::encode_u64(&mut out, 0x0102030405060708);
    assert_eq!(out, vec![1, 2, 3, 4, 5, 6, 7, 8]);
    assert_eq!(codec::read_u64(&out, 0), 0x0102030405060708);
    let mut out = vec![];
    codec::encode_u64_desc(&mut out, 1);
    assert_eq!(out, vec![255, 255, 255, 255, 255, 255, 255, 254]);
    for n in [0, 127, 128, 300, u64::MAX] {
        let mut out = vec![9];
        codec::encode_var_u64(&mut out, n);
        assert_eq!(codec::decode_var_u64(&out, 1), Ok((n, out.len())));
    }
    assert_eq!(codec::decode_var_u64(&[0x80], 0), Err(CodecError::UnexpectedEof));
    let mut long = vec![0xff; 10];
    long.push(1);
    assert_eq!(codec::decode_var_u64(&long, 0), Err(CodecError::VarOverflow));
    let mut out = vec![];
    codec::encode_compact_bytes(&mut out, b"abc");
    assert_eq!(out, vec![6, b'a', b'b', b'c']);
    assert_eq!(codec::decode_compact_bytes(&out, 0), Ok((b"abc".to_vec(), 4)));
    assert_eq!(codec::decode_compact_bytes(&out[..3], 0), Err(CodecError::UnexpectedEof));
}

#[test]
fn keys_of_a_store() {
    assert_eq!(keys::data_key(b"a"), b"za".to_vec());
    assert_eq!(keys::data_end_key(b"a"), b"za".to_vec());
    assert_eq!(keys::data_end_key(b""), b"{".to_vec());
    assert_eq!(keys::origin_key(b"zab"), b"ab");
    assert_eq!(keys::region_state_key(1), vec![1, 3, 0, 0, 0, 0, 0, 0, 0, 1, 1]);
    assert_eq!(keys::raft_state_key(1), vec![1, 2, 0, 0, 0, 0, 0, 0, 0, 1, 2]);
    assert_eq!(keys::apply_state_key(1), vec![1, 2, 0, 0, 0, 0, 0, 0, 0, 1, 3]);
    assert_eq!(
        keys::raft_log_key(1, 2),
        vec![1, 2, 0, 0, 0, 0, 0, 0, 0, 1, 1, 0, 0, 0, 0, 0, 0, 0, 2]
    );
    assert_eq!(keys::decode_raft_log_key(&keys::raft_log_key(7, 8)), Ok((7, 8)));
    assert_eq!(keys::decode_raft_log_key(b"x"), Err(KeyError::NotRaftLogKey));
    assert_eq!(
        keys::decode_region_meta_key(&keys::region_state_key(5)),
        Ok((5, keys::REGION_STATE_SUFFIX))
    );
    assert_eq!(keys::decode_region_meta_key(b"x"), Err(KeyError::MetaLength));
    assert_eq!(
        keys::decode_region_meta_key(&keys::raft_state_key(5)),
        Err(KeyError::MetaPrefix)
    );
}

#[test]
fn timestamps_stand_at_the_end_of_keys() {
    let key = Key::from_raw(b"k");
    let at = key.append_ts(9);
    assert_eq!(at.decode_ts(), Ok(9));
    assert_eq!(at.truncate_ts(), Ok(Key::from_raw(b"k")));
    assert_eq!(at.truncate_ts().unwrap().raw(), Ok(b"k".to_vec()));
    assert!(key.append_ts(10).encoded() < at.encoded());
    assert_eq!(Key::from_encoded(b"short".to_vec()).decode_ts(), Err(CodecError::KeyLength));
    assert_eq!(
        Key::from_encoded(b"short".to_vec()).truncate_ts(),
        Err(CodecError::KeyLength)
    );
}

#[test]
fn stored_forms_keep_the_order_of_keys() {
    let samples: [&[u8]; 9] = [
        b"",
        b"\x00",
        b"a",
        b"a\x00",
        b"a\x00\x00\x00\x00\x00\x00\x00",
        b"abcdefgh",
        b"abcdefgh\x00",
        b"abcdefghi",
        b"\xff",
    ];
    for a in samples {
        for b in samples {
            assert_eq!(codec::encode_bytes(a) < codec::encode_bytes(b), a < b);
        }
    }
}

#[test]
fn numbers_in_keys_keep_their_order() {
    let samples = [0, 1, 255, 256, 65535, 65536, 1 << 40, u64::MAX];
    let be = |n| {
        let mut out = vec![];
        codec::encode_u64(&mut out, n);
        out
    };
    for a in samples {
        for b in samples {
            assert_eq!(be(a) < be(b), a < b);
            let key = Key::from_raw(b"k");
            assert_eq!(key.append_ts(a).encoded() < key.append_ts(b).encoded(), a > b);
            assert_eq!(keys::raft_log_key(7, a) < keys::raft_log_key(7, b), a < b);
            assert_eq!(keys::raft_log_key(a, 9) < keys::raft_log_key(b, 3), a < b);
        }
    }
}
