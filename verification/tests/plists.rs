use ios_emu::ipa::bplist::{be_int, be_uint, utf16_lossy};
use ios_emu::ipa::plist::{parse, PlistError, PlistReal, PlistValue};
use ios_emu::ipa::xml::{parse_integer, unescape};

#[test]
fn xml_roundtrip() {
    let doc = br#"<?xml version="1.0"?>
        <!DOCTYPE plist PUBLIC "-//Apple//DTD PLIST 1.0//EN" "x">
        <plist version="1.0">
        <dict>
            <key>CFBundleName</key><string>Demo</string>
            <key>MinimumOSVersion</key><string>7.0</string>
            <key>LSRequiresIPhoneOS</key><true/>
            <key>CFBundleIconFiles</key>
            <array><string>Icon.png</string><string>Icon@2x.png</string></array>
        </dict>
        </plist>"#;
    let v = parse(doc).unwrap();
    assert_eq!(v.get("CFBundleName").and_then(|x| x.as_str()), Some("Demo"));
    assert_eq!(v.get("LSRequiresIPhoneOS"), Some(&PlistValue::Bool(true)));
    assert_eq!(v.get("CFBundleIconFiles").and_then(|x| x.as_array()).map(|a| a.len()), Some(2));
}

/// A binary plist of `objects`, the first one on top.
fn binary(objects: &[Vec<u8>]) -> Vec<u8> {
    let mut buf = b"bplist00".to_vec();
    let mut offsets = Vec::new();
    for o in objects {
        offsets.push(buf.len());
        buf.extend_from_slice(o);
    }
    let table_offset = buf.len();
    for &o in &offsets {
        buf.extend_from_slice(&(o as u16).to_be_bytes());
    }
    buf.extend_from_slice(&[0, 0, 0, 0, 0, 0]);
    buf.push(2);
    buf.push(1);
    buf.extend_from_slice(&(offsets.len() as u64).to_be_bytes());
    buf.extend_from_slice(&0u64.to_be_bytes());
    buf.extend_from_slice(&(table_offset as u64).to_be_bytes());
    buf
}

#[test]
fn binary_bool_and_int() {
    let mut buf = b"bplist00".to_vec();
    let mut offsets = Vec::new();

    offsets.push(buf.len());
    buf.push(0xD1);
    buf.push(1);
    buf.push(2);

    offsets.push(buf.len());
    buf.push(0x51);
    buf.push(b'k');

    offsets.push(buf.len());
    buf.push(0x10);
    buf.push(7);

    let table_offset = buf.len();
    for &o in &offsets {
        buf.push(o as u8);
    }

    buf.extend_from_slice(&[0, 0, 0, 0, 0, 0]);
    buf.push(1);
    buf.push(1);
    buf.extend_from_slice(&(offsets.len() as u64).to_be_bytes());
    buf.extend_from_slice(&0u64.to_be_bytes());
    buf.extend_from_slice(&(table_offset as u64).to_be_bytes());

    let v = parse(&buf).unwrap();
    assert_eq!(v.get("k").and_then(|x| x.as_i64()), Some(7));
}

#[test]
fn binary_scalars() {
    let cases: Vec<(Vec<u8>, PlistValue)> = vec![
        (vec![0x08], PlistValue::Bool(false)),
        (vec![0x09], PlistValue::Bool(true)),
        (vec![0x11, 1, 2], PlistValue::Integer(0x102)),
        (
            vec![0x13, 0xff, 0xff, 0xff, 0xff, 0xff, 0xff, 0xff, 0xfe],
            PlistValue::Integer(-2),
        ),
        (vec![0x22, 0x3f, 0x80, 0, 0], PlistValue::Real(PlistReal::Single(0x3f80_0000))),
        (
            vec![0x33, 0x40, 0, 0, 0, 0, 0, 0, 0],
            PlistValue::Real(PlistReal::Double(0x4000_0000_0000_0000)),
        ),
        (vec![0x42, 5, 6], PlistValue::Data(vec![5, 6])),
        (vec![0x53, b'a', 0xff, b'c'], PlistValue::String("a\u{fffd}c".to_string())),
        (
            vec![0x63, 0, b'h', 0xd8, 0x3d, 0xde, 0x00],
            PlistValue::String("h\u{1f600}".to_string()),
        ),
        (vec![0x81, 1, 0], PlistValue::Integer(256)),
        (vec![0x5f, 0x10, 2, b'h', b'i'], PlistValue::String("hi".to_string())),
    ];
    for (bytes, value) in cases {
        assert_eq!(parse(&binary(&[bytes])).unwrap(), value);
    }
}

#[test]
fn binary_containers_keep_their_order() {
    let v = parse(&binary(&[
        vec![0xD2, 1, 2, 3, 4],
        vec![0x51, b'z'],
        vec![0x51, b'a'],
        vec![0x09],
        vec![0xA2, 3, 2],
    ]))
    .unwrap();
    match &v {
        PlistValue::Dict(d) => {
            let keys: Vec<&str> = d.iter().map(|e| e.0.as_str()).collect();
            assert_eq!(keys, vec!["a", "z"]);
        }
        other => panic!("not a dictionary: {other:?}"),
    }
    let a = v.get("a").and_then(|x| x.as_array()).unwrap();
    assert_eq!(a[0], PlistValue::Bool(true));
    assert_eq!(a[1].as_str(), Some("a"));
}

#[test]
fn later_entries_replace_earlier_ones() {
    let v = parse(&binary(&[
        vec![0xD2, 1, 1, 2, 3],
        vec![0x51, b'k'],
        vec![0x10, 1],
        vec![0x10, 2],
    ]))
    .unwrap();
    assert_eq!(v.get("k").and_then(|x| x.as_i64()), Some(2));
}

fn message(bytes: &[u8]) -> String {
    parse(bytes).unwrap_err().message()
}

#[test]
fn malformed_binary_plists_are_refused() {
    assert_eq!(message(b"bplist00"), "truncated plist");
    let mut bad = binary(&[vec![0x09]]);
    let n = bad.len();
    bad[n - 26] = 9;
    assert_eq!(message(&bad), "bad binary plist trailer");
    let mut bad = binary(&[vec![0x09]]);
    bad[n - 9] = 1;
    assert_eq!(message(&bad), "bad binary plist trailer");
    assert_eq!(message(&binary(&[vec![0x00]])), "unsupported object marker 0x00");
    assert_eq!(message(&binary(&[vec![0x70]])), "unsupported object marker 0x70");
    assert_eq!(message(&binary(&[vec![0x4f, 0x11, 0xff, 0xff]])), "truncated plist");
    assert_eq!(message(&binary(&[vec![0x1f]])), "truncated plist");
    assert_eq!(message(&binary(&[vec![0x21, 0, 0]])), "unsupported object marker 0x21");
    assert_eq!(message(&binary(&[vec![0xA1, 9]])), "object reference out of range");
    assert_eq!(message(&binary(&[vec![0xD1, 1, 1], vec![0x09]])), "object reference out of range");
    assert_eq!(message(&binary(&[vec![0x5f, 0x20]])), "bad binary plist trailer");
    assert_eq!(message(b"hello"), "not a recognised plist");
}

#[test]
fn self_containing_arrays_are_refused() {
    assert!(matches!(parse(&binary(&[vec![0xA1, 0]])), Err(PlistError::BadReference)));
}

#[test]
fn nesting_is_bounded() {
    let chain = |n: u8| {
        let mut objects: Vec<Vec<u8>> = (1..n).map(|i| vec![0xA1, i]).collect();
        objects.push(vec![0x09]);
        parse(&binary(&objects))
    };
    assert!(chain(129).is_ok());
    assert!(matches!(chain(130), Err(PlistError::BadReference)));
}

#[test]
fn xml_scalars() {
    let v = parse(
        b"<plist><array><integer> -12 </integer><integer>x</integer><real> 1.5 </real>\
          <false/><data> QUJD </data><string>a &lt;b&gt; &amp;amp; &quot;c&apos;</string></array></plist>",
    )
    .unwrap();
    let a = v.as_array().unwrap();
    assert_eq!(a[0].as_i64(), Some(-12));
    assert_eq!(a[1].as_i64(), Some(0));
    assert_eq!(a[2], PlistValue::Real(PlistReal::Numeral("1.5".to_string())));
    assert_eq!(a[3], PlistValue::Bool(false));
    assert_eq!(a[4], PlistValue::Data(b"QUJD".to_vec()));
    assert_eq!(a[5].as_str(), Some("a <b> &amp; \"c'"));
    assert_eq!(a[5].as_i64(), None);
    assert!(a[0].as_str().is_none());
    assert!(a[0].get("k").is_none());
    assert!(a[0].as_array().is_none());
}

#[test]
fn xml_text_may_be_any_utf8() {
    let v = parse("<plist><!-- x --><string>caf\u{e9} \u{1f600}</string></plist>".as_bytes()).unwrap();
    assert_eq!(v.as_str(), Some("caf\u{e9} \u{1f600}"));
    let v = parse("<!-- x --><plist><string>caf\u{e9} \u{1f600}</string></plist>".as_bytes()).unwrap();
    assert_eq!(v.as_str(), Some("caf\u{e9} \u{1f600}"));
}

#[test]
fn comments_and_attributes_are_ignored() {
    let plain = parse(
        b"<plist><dict><key>a</key><array><true/><integer>1</integer></array>\
          <key>b</key><string>x</string></dict></plist>",
    )
    .unwrap();
    let noted = parse(
        b"<!-- 0 --><plist version='1.0'><!-- 1 --> <dict id=\"d\"><!-- 2 -->\n<key lang='en'>a</key>\
          <!-- 3 --><array n='2'><!-- 4 --><true /><!-- <false/> --><integer\tw='8'>1</integer>\
          <!-- 5 --></array><key >b</key><string xml:space='preserve'>x</string>\
          <!-- 6 --><!-- 7 --></dict></plist>",
    )
    .unwrap();
    assert_eq!(noted, plain);
    assert_eq!(noted.clone(), plain);
    assert_eq!(
        parse(b"<plist><true a='1'/></plist>").unwrap(),
        PlistValue::Bool(true)
    );
    assert_eq!(message(b"<plist><dict /></plist>"), "xml plist: unexpected element");
    assert_eq!(message(b"<plist><dictionary></dictionary></plist>"), "xml plist: unexpected element");
    assert_eq!(message(b"<plist><!-- open"), "xml plist: unexpected element");
}

#[test]
fn malformed_xml_plists_are_refused() {
    assert_eq!(message(b"<plist>\xff"), "xml plist: not utf-8");
    assert_eq!(message(b"<?xml?><dict></dict>"), "xml plist: expected <plist>");
    assert_eq!(message(b"<plist><blob/></plist>"), "xml plist: unexpected element");
    assert_eq!(message(b"<plist><dict><true/></dict>"), "xml plist: expected <key> in dict");
    assert_eq!(message(b"<plist><string>x</plist>"), "xml plist: unterminated <string>");
    assert_eq!(message(b"<plist><array>"), "xml plist: unexpected element");
    assert_eq!(message(b"<plist"), "xml plist: unexpected element");
}

#[test]
fn integers_are_decoded() {
    assert_eq!(be_uint(&[1, 2, 3]), 0x010203);
    assert_eq!(be_uint(&[]), 0);
    assert_eq!(be_uint(&[9, 0, 0, 0, 0, 0, 0, 0, 1]), 1);
    assert_eq!(be_int(&[0xff]), 255);
    assert_eq!(be_int(&[0xff; 8]), -1);
    assert_eq!(parse_integer("9223372036854775807"), Some(i64::MAX));
    assert_eq!(parse_integer("-9223372036854775808"), Some(i64::MIN));
    assert_eq!(parse_integer("9223372036854775808"), None);
    assert_eq!(parse_integer("99999999999999999999999999"), None);
    assert_eq!(parse_integer("+7"), Some(7));
    assert_eq!(parse_integer("-"), None);
    assert_eq!(parse_integer(""), None);
    assert_eq!(parse_integer("1 2"), None);
}

#[test]
fn text_is_decoded() {
    assert_eq!(utf16_lossy(&[0x68, 0xd83d, 0xde00, 0xd800, 0x69, 0xdc00]), "h\u{1f600}\u{fffd}i\u{fffd}");
    assert_eq!(utf16_lossy(&[0xd83d]), "\u{fffd}");
    assert_eq!(utf16_lossy(&[0xffff, 0xe000]), "\u{ffff}\u{e000}");
    assert_eq!(unescape("&amp;lt;"), "&lt;");
    assert_eq!(unescape("&lt&lt;"), "&lt<");
}
