use model_loader::encoding::is_valid_utf8;
use model_loader::face::{parse_face, parse_face_point, parse_index, FacePoint};
use model_loader::numeral::{is_decimal_literal, Numeral};
use model_loader::text::{bytes_eq, find_line_end, space_width_at, split_tokens};

/// A small generator of repeatable pseudo-random numbers.
struct Lcg(u64);

impl Lcg {
    fn next(&mut self) -> u64 {
        self.0 = self.0.wrapping_mul(6364136223846793005).wrapping_add(1442695040888963407);
        self.0 >> 33
    }

    fn below(&mut self, n: usize) -> usize {
        (self.next() % (n as u64)) as usize
    }
}

fn tokens(line: &str) -> Vec<String> {
    split_tokens(line.as_bytes())
        .iter()
        .map(|t| String::from_utf8(t.to_vec()).unwrap())
        .collect()
}

#[test]
fn tokens_are_what_whitespace_separates() {
    assert_eq!(tokens("v 1 2 3"), vec!["v", "1", "2", "3"]);
    assert_eq!(tokens("  v\t1  2\r"), vec!["v", "1", "2"]);
    assert_eq!(tokens(""), Vec::<String>::new());
    assert_eq!(tokens(" \t \r"), Vec::<String>::new());
    assert_eq!(tokens("usemtl"), vec!["usemtl"]);
}

#[test]
fn tokens_agree_with_the_standard_split() {
    let lines = [
        "v 1 2 3",
        "a\u{a0}b",
        "a\u{85}b",
        "a\u{1680}b",
        "a\u{2000}b\u{200a}c",
        "a\u{2028}b\u{2029}c",
        "a\u{202f}b\u{205f}c\u{3000}d",
        "a\u{200b}b",
        "a\u{180e}b",
        "a\u{feff}b",
        "a\u{1c}b\u{1f}c",
        "a\u{b}b\u{c}c",
        "\u{3000}",
        "é \u{e9}\u{a0}ü",
        "名前 テスト\u{3000}終",
        "\u{2001}\u{2002}x\u{2003}",
        "𝒳 y",
    ];
    for line in lines {
        let expected: Vec<String> = line.split_whitespace().map(String::from).collect();
        assert_eq!(tokens(line), expected, "{:?}", line);
    }
}

#[test]
fn tokens_agree_with_the_standard_split_on_generated_lines() {
    let alphabet = [
        "a", "b", "1", " ", " ", "\t", "\r", "\u{b}", "\u{c}", "\u{85}", "\u{a0}", "\u{1680}",
        "\u{2000}", "\u{2005}", "\u{200a}", "\u{200b}", "\u{2028}", "\u{2029}", "\u{202f}",
        "\u{205f}", "\u{3000}", "\u{3001}", "\u{e2}", "\u{c2}", "\u{80}", "é", "\u{2080}",
        "\u{e100}", "\u{1680}", "\u{1681}", "\u{167f}", "𝒳",
    ];
    let mut lcg = Lcg(7);
    for _ in 0..20000 {
        let n = lcg.below(8);
        let mut line = String::new();
        for _ in 0..n {
            line.push_str(alphabet[lcg.below(alphabet.len())]);
        }
        let expected: Vec<String> = line.split_whitespace().map(String::from).collect();
        assert_eq!(tokens(&line), expected, "{:?}", line);
    }
}

#[test]
fn whitespace_widths() {
    assert_eq!(space_width_at(b" x", 0), 1);
    assert_eq!(space_width_at(b" x", 1), 0);
    assert_eq!(space_width_at("\u{a0}".as_bytes(), 0), 2);
    assert_eq!(space_width_at("\u{3000}".as_bytes(), 0), 3);
    assert_eq!(space_width_at("\u{3000}".as_bytes(), 1), 0);
    assert_eq!(space_width_at(&[0xe2, 0x80], 0), 0);
    assert_eq!(space_width_at(&[0xc2], 0), 0);
}

#[test]
fn lines_end_at_line_feeds() {
    let text = b"ab\n\ncd";
    assert_eq!(find_line_end(text, 0), 2);
    assert_eq!(find_line_end(text, 3), 3);
    assert_eq!(find_line_end(text, 4), 6);
    assert_eq!(find_line_end(text, 6), 6);
}

#[test]
fn byte_strings_compare_by_content() {
    assert!(bytes_eq(b"abc", b"abc"));
    assert!(bytes_eq(b"", b""));
    assert!(!bytes_eq(b"abc", b"abd"));
    assert!(!bytes_eq(b"abc", b"ab"));
    assert!(!bytes_eq(b"ab", b"abc"));
}

#[test]
fn decimal_literals_by_the_grammar() {
    for good in [
        "0", "1", "-1", "+1", "3.14", "-3.14", "2.5E10", "2.5e-10", "5.", ".5", "0.5", "inf",
        "-inf", "+infinity", "NaN", "nan", "-NAN", "InFiNiTy", "1e5", "1E+5", "1.e5", ".5e-3",
        "000", "1e0000", "+.5", "-5.", "123456789012345678901234567890", "1e999999", "0.0",
        "1.0",
    ] {
        assert!(is_decimal_literal(good.as_bytes()), "{}", good);
    }
    for bad in [
        "", "+", "-", ".", "e", "e5", ".e5", "1e", "1e+", "1e-", "+-1", "--1", "1..2", "1.2.3",
        "1_000", "0x10", "1f32", " 1", "1 ", "in", "infi", "infinit", "infinityy", "na", "nane",
        "1,5", "1e5.5", "١", "1e5e5", "+inf+", "i", "n", "++inf",
    ] {
        assert!(!is_decimal_literal(bad.as_bytes()), "{}", bad);
    }
}

#[test]
fn decimal_literals_are_what_converts_to_a_float() {
    let alphabet = [
        "0", "1", "5", "9", ".", "e", "E", "+", "-", "i", "n", "f", "a", "N", "I", "t", "y", "x",
        " ", "_", "inf", "nan", "infinity",
    ];
    let mut lcg = Lcg(11);
    let mut accepted = 0;
    for _ in 0..200000 {
        let n = lcg.below(7);
        let mut token = String::new();
        for _ in 0..n {
            token.push_str(alphabet[lcg.below(alphabet.len())]);
        }
        let expected = token.parse::<f32>().is_ok();
        assert_eq!(is_decimal_literal(token.as_bytes()), expected, "{:?}", token);
        assert_eq!(Numeral::parse(token.as_bytes()).is_some(), expected, "{:?}", token);
        if expected {
            accepted += 1;
        }
    }
    assert!(accepted > 1000);
}

#[test]
fn a_numeral_keeps_its_text() {
    let n = Numeral::parse(b"-12.5e3").unwrap();
    assert_eq!(n.as_bytes(), b"-12.5e3");
    assert_eq!(n.clone().as_bytes(), b"-12.5e3");
    assert_eq!(Numeral::zero().as_bytes(), b"0.0");
    assert_eq!(Numeral::one().as_bytes(), b"1.0");
    assert!(Numeral::parse(b"abc").is_none());
    assert!(Numeral::parse(b"").is_none());
}

#[test]
fn indices_are_what_converts_to_a_machine_word() {
    let max = usize::MAX.to_string();
    let over = format!("{}0", usize::MAX);
    let next = {
        // the text of usize::MAX + 1
        let wide = (usize::MAX as u128) + 1;
        wide.to_string()
    };
    let padded = format!("000000000000000000000000000000{}", usize::MAX);
    for token in [
        "0", "1", "42", "+7", "007", "-1", "+", "-", "", "1a", "a", "1.0", "1e3", " 1", "++1",
        "+-1", max.as_str(), over.as_str(), next.as_str(), padded.as_str(),
    ] {
        assert_eq!(parse_index(token.as_bytes()), token.parse::<usize>().ok(), "{:?}", token);
    }
    assert_eq!(parse_index(max.as_bytes()), Some(usize::MAX));
    assert_eq!(parse_index(next.as_bytes()), None);
}

#[test]
fn indices_agree_with_the_standard_conversion_on_generated_tokens() {
    let alphabet = ["0", "1", "9", "+", "-", "a", " ", "18446744073709551615", "4294967295"];
    let mut lcg = Lcg(13);
    for _ in 0..50000 {
        let n = lcg.below(5);
        let mut token = String::new();
        for _ in 0..n {
            token.push_str(alphabet[lcg.below(alphabet.len())]);
        }
        assert_eq!(parse_index(token.as_bytes()), token.parse::<usize>().ok(), "{:?}", token);
    }
}

fn expected_face_point(token: &str) -> Option<FacePoint> {
    let mut indices: Vec<usize> = Vec::new();
    for part in token.split('/') {
        if part.is_empty() {
            indices.push(0);
        } else {
            indices.push(part.parse::<usize>().ok()?);
        }
    }
    Some(FacePoint {
        vertex_index: indices[0],
        texture_index: if indices.len() > 1 { indices[1] } else { 0 },
        normal_index: if indices.len() > 2 { indices[2] } else { 0 },
    })
}

#[test]
fn face_tokens() {
    let p = |v, t, n| Some(FacePoint { vertex_index: v, texture_index: t, normal_index: n });
    assert_eq!(parse_face_point(b"3/2/1"), p(3, 2, 1));
    assert_eq!(parse_face_point(b"3//7"), p(3, 0, 7));
    assert_eq!(parse_face_point(b"3/2"), p(3, 2, 0));
    assert_eq!(parse_face_point(b"3"), p(3, 0, 0));
    assert_eq!(parse_face_point(b"3/"), p(3, 0, 0));
    assert_eq!(parse_face_point(b"/"), p(0, 0, 0));
    assert_eq!(parse_face_point(b"//5"), p(0, 0, 5));
    assert_eq!(parse_face_point(b"1/2/3/4"), p(1, 2, 3));
    assert_eq!(parse_face_point(b"1/2/3/"), p(1, 2, 3));
    assert_eq!(parse_face_point(b"1/2/3/x"), None);
    assert_eq!(parse_face_point(b"x"), None);
    assert_eq!(parse_face_point(b"1/x"), None);
    assert_eq!(parse_face_point(b""), p(0, 0, 0));
}

#[test]
fn face_tokens_agree_with_split_and_parse_on_generated_tokens() {
    let alphabet = ["0", "1", "2", "9", "/", "/", "+", "-", "a", "12"];
    let mut lcg = Lcg(17);
    for _ in 0..50000 {
        let n = 1 + lcg.below(7);
        let mut token = String::new();
        for _ in 0..n {
            token.push_str(alphabet[lcg.below(alphabet.len())]);
        }
        assert_eq!(parse_face_point(token.as_bytes()), expected_face_point(&token), "{:?}", token);
    }
}

#[test]
fn a_face_is_the_corners_after_the_directive() {
    let line = b"f 1/1/1 2//2 3";
    let tokens = split_tokens(line);
    let face = parse_face(&tokens, 1).unwrap();
    assert_eq!(
        face.points,
        vec![
            FacePoint { vertex_index: 1, texture_index: 1, normal_index: 1 },
            FacePoint { vertex_index: 2, texture_index: 0, normal_index: 2 },
            FacePoint { vertex_index: 3, texture_index: 0, normal_index: 0 },
        ]
    );
    let bad = split_tokens(b"f 1 2 x");
    assert!(parse_face(&bad, 1).is_none());
    let none = split_tokens(b"f");
    assert_eq!(parse_face(&none, 1).unwrap().points.len(), 0);
}

#[test]
fn utf8_by_the_standard() {
    let samples: Vec<Vec<u8>> = vec![
        vec![],
        b"plain".to_vec(),
        "é".as_bytes().to_vec(),
        "€".as_bytes().to_vec(),
        "𝒳".as_bytes().to_vec(),
        "\u{7ff}\u{800}\u{ffff}\u{10000}\u{10ffff}".as_bytes().to_vec(),
        "\u{d7ff}\u{e000}".as_bytes().to_vec(),
        vec![0x80],
        vec![0xbf],
        vec![0xc0, 0x80],
        vec![0xc1, 0xbf],
        vec![0xc2],
        vec![0xc2, 0x41],
        vec![0xe0, 0x80, 0x80],
        vec![0xe0, 0x9f, 0xbf],
        vec![0xe0, 0xa0, 0x80],
        vec![0xed, 0xa0, 0x80],
        vec![0xed, 0xbf, 0xbf],
        vec![0xed, 0x9f, 0xbf],
        vec![0xee, 0x80],
        vec![0xf0, 0x80, 0x80, 0x80],
        vec![0xf0, 0x8f, 0xbf, 0xbf],
        vec![0xf0, 0x90, 0x80, 0x80],
        vec![0xf4, 0x8f, 0xbf, 0xbf],
        vec![0xf4, 0x90, 0x80, 0x80],
        vec![0xf5, 0x80, 0x80, 0x80],
        vec![0xf7, 0xbf, 0xbf, 0xbf],
        vec![0xf8, 0x88, 0x80, 0x80, 0x80],
        vec![0xff],
        vec![0xfe],
        vec![0x41, 0xe2, 0x82],
        vec![0x41, 0xe2, 0x82, 0xac, 0x42],
    ];
    for sample in samples {
        assert_eq!(is_valid_utf8(&sample), std::str::from_utf8(&sample).is_ok(), "{:?}", sample);
    }
}

#[test]
fn utf8_agrees_with_the_standard_on_generated_bytes() {
    let alphabet: [u8; 24] = [
        0x00, 0x41, 0x7f, 0x80, 0x8f, 0x90, 0x9f, 0xa0, 0xbf, 0xc0, 0xc1, 0xc2, 0xdf, 0xe0, 0xe1,
        0xec, 0xed, 0xee, 0xef, 0xf0, 0xf1, 0xf4, 0xf5, 0xff,
    ];
    let mut lcg = Lcg(19);
    let mut valid = 0;
    for _ in 0..300000 {
        let n = lcg.below(6);
        let mut bytes: Vec<u8> = Vec::new();
        for _ in 0..n {
            bytes.push(alphabet[lcg.below(alphabet.len())]);
        }
        let expected = std::str::from_utf8(&bytes).is_ok();
        assert_eq!(is_valid_utf8(&bytes), expected, "{:?}", bytes);
        if expected {
            valid += 1;
        }
    }
    assert!(valid > 1000);
}
