use hls_wavelet::number::{is_digit_char, is_duration_token, parse_i32};
use hls_wavelet::text::{chars_of, is_separator_char, same_text, span_is, token_spans};

/// A small generator of numbers that gives the same run each time.
struct Lcg(u64);

impl Lcg {
    fn next(&mut self) -> u64 {
        self.0 = self.0.wrapping_mul(6364136223846793005).wrapping_add(1442695040888963407);
        self.0 >> 33
    }

    fn text(&mut self, alphabet: &[char], longest: u64) -> String {
        let len = self.next() % (longest + 1);
        (0..len).map(|_| alphabet[(self.next() % alphabet.len() as u64) as usize]).collect()
    }
}

fn tokens_of(doc: &str) -> Vec<String> {
    let chars = chars_of(doc);
    token_spans(&chars).iter().map(|&(a, b)| chars[a..b].iter().collect::<String>()).collect()
}

fn split_of(doc: &str) -> Vec<String> {
    doc.split(|c: char| c == ',' || c == ':' || c.is_ascii_whitespace())
        .filter(|p| !p.is_empty())
        .map(String::from)
        .collect()
}

#[test]
fn chars_of_gives_every_character() {
    assert_eq!(chars_of(""), Vec::<char>::new());
    assert_eq!(chars_of("a:b"), vec!['a', ':', 'b']);
    assert_eq!(chars_of("şé€𝄞"), vec!['ş', 'é', '€', '𝄞']);
}

#[test]
fn separators_are_comma_colon_and_ascii_whitespace() {
    for c in [',', ':', ' ', '\t', '\n', '\x0C', '\r'] {
        assert!(is_separator_char(c));
    }
    for c in ['\x0B', ';', '.', '#', 'a', '0', '\u{a0}', '\u{2028}', '\0', '-'] {
        assert!(!is_separator_char(c));
    }
    for code in 0u32..0x3000 {
        if let Some(c) = char::from_u32(code) {
            assert_eq!(is_separator_char(c), c == ',' || c == ':' || c.is_ascii_whitespace());
        }
    }
}

#[test]
fn digits_are_the_ten_ascii_digits() {
    for code in 0u32..0x3000 {
        if let Some(c) = char::from_u32(code) {
            assert_eq!(is_digit_char(c), c.is_ascii_digit());
        }
    }
}

#[test]
fn tokens_are_what_separators_leave() {
    assert_eq!(tokens_of(""), Vec::<String>::new());
    assert_eq!(tokens_of(" ,:\n"), Vec::<String>::new());
    assert_eq!(tokens_of("abc"), vec!["abc"]);
    assert_eq!(tokens_of("a,b"), vec!["a", "b"]);
    assert_eq!(tokens_of("  a  "), vec!["a"]);
    assert_eq!(tokens_of("#EXTINF:6.0,seg1.aac\n"), vec!["#EXTINF", "6.0", "seg1.aac"]);
    assert_eq!(tokens_of("é:€ 𝄞"), vec!["é", "€", "𝄞"]);
}

#[test]
fn token_spans_mark_start_and_end() {
    let chars = chars_of(" ab,,c:");
    assert_eq!(token_spans(&chars), vec![(1, 3), (5, 6)]);
    let chars = chars_of("x");
    assert_eq!(token_spans(&chars), vec![(0, 1)]);
}

#[test]
fn tokens_agree_with_split_on_many_documents() {
    let alphabet = ['a', 'b', '#', '1', '.', ',', ':', ' ', '\n', '\t', '\r', '\x0C', '\x0B', 'é'];
    let mut lcg = Lcg(7);
    for _ in 0..2000 {
        let doc = lcg.text(&alphabet, 24);
        assert_eq!(tokens_of(&doc), split_of(&doc), "{:?}", doc);
    }
}

#[test]
fn span_is_compares_the_marked_piece() {
    let chars = chars_of("one two");
    assert!(span_is(&chars, 0, 3, &chars_of("one")));
    assert!(span_is(&chars, 4, 7, &chars_of("two")));
    assert!(!span_is(&chars, 0, 3, &chars_of("two")));
    assert!(!span_is(&chars, 0, 3, &chars_of("on")));
    assert!(!span_is(&chars, 0, 2, &chars_of("one")));
    assert!(span_is(&chars, 2, 2, &chars_of("")));
}

#[test]
fn same_text_is_equality_of_characters() {
    assert!(same_text("", ""));
    assert!(same_text("#EXTINF", "#EXTINF"));
    assert!(!same_text("#EXTINF", "#EXTINf"));
    assert!(!same_text("a", "ab"));
    assert!(!same_text("ab", "a"));
    assert!(same_text("é€", "é€"));
}

fn integer_of(text: &str) -> Option<i32> {
    let chars = chars_of(text);
    parse_i32(&chars, 0, chars.len())
}

fn is_duration(text: &str) -> bool {
    let chars = chars_of(text);
    is_duration_token(&chars, 0, chars.len())
}

#[test]
fn parse_i32_reads_a_piece_of_a_text() {
    let chars = chars_of("ab-12cd");
    assert_eq!(parse_i32(&chars, 2, 5), Some(-12));
    assert_eq!(parse_i32(&chars, 3, 5), Some(12));
    assert_eq!(parse_i32(&chars, 2, 3), None);
    assert_eq!(parse_i32(&chars, 1, 5), None);
    assert_eq!(parse_i32(&chars, 4, 4), None);
}

#[test]
fn integers_agree_with_the_standard_parser_on_many_texts() {
    let alphabet = ['+', '-', '0', '1', '2', '4', '7', '8', '9', '.', 'a', ' '];
    let mut lcg = Lcg(11);
    for _ in 0..20000 {
        let text = lcg.text(&alphabet, 12);
        assert_eq!(integer_of(&text), text.parse::<i32>().ok(), "{:?}", text);
    }
    let digits = ['0', '1', '2', '3', '4', '5', '6', '7', '8', '9'];
    for _ in 0..20000 {
        let sign = ["", "+", "-"][(lcg.next() % 3) as usize];
        let text = format!("{}{}", sign, lcg.text(&digits, 12));
        assert_eq!(integer_of(&text), text.parse::<i32>().ok(), "{:?}", text);
    }
}

#[test]
fn integers_next_to_the_limits() {
    for v in [i32::MIN as i64 - 2, i32::MIN as i64 - 1, i32::MIN as i64, i32::MIN as i64 + 1] {
        let text = v.to_string();
        assert_eq!(integer_of(&text), text.parse::<i32>().ok());
    }
    for v in [i32::MAX as i64 - 1, i32::MAX as i64, i32::MAX as i64 + 1, i32::MAX as i64 + 2] {
        for sign in ["", "+"] {
            let text = format!("{}{}", sign, v);
            assert_eq!(integer_of(&text), text.parse::<i32>().ok());
        }
    }
    assert_eq!(integer_of("4294967296"), None);
    assert_eq!(integer_of("-0"), Some(0));
    assert_eq!(integer_of("+0000000000000000000002147483647"), Some(i32::MAX));
}

#[test]
fn durations_agree_with_the_standard_parser_on_many_texts() {
    let alphabet = ['+', '-', '.', 'e', 'E', '0', '1', '5', '9', 'i', 'n', 'f', 'a', 'N', 'I', 't', 'y'];
    let mut lcg = Lcg(13);
    let mut taken = 0;
    for _ in 0..60000 {
        let text = lcg.text(&alphabet, 7);
        let expected = match text.parse::<f32>() {
            Ok(v) => v.is_sign_positive() && text.chars().any(|c| c.is_ascii_digit()),
            Err(_) => false,
        };
        assert_eq!(is_duration(&text), expected, "{:?}", text);
        if expected {
            taken += 1;
        }
    }
    assert!(taken > 1000);
    let numeric = ['+', '-', '.', 'e', '0', '1', '7'];
    for _ in 0..60000 {
        let text = lcg.text(&numeric, 8);
        let expected = match text.parse::<f32>() {
            Ok(v) => v.is_sign_positive() && text.chars().any(|c| c.is_ascii_digit()),
            Err(_) => false,
        };
        assert_eq!(is_duration(&text), expected, "{:?}", text);
    }
}

#[test]
fn words_are_no_durations() {
    for word in ["nan", "NaN", "inf", "Inf", "infinity", "INFINITY", "+nan", "+inf", "-inf", "e", "E"] {
        assert!(!is_duration(word), "{:?}", word);
        assert!(word.parse::<f32>().is_ok() || word == "e" || word == "E");
    }
    for number in ["0", "6.0", "+6.0", "1e3", ".5", "5.", "1e999"] {
        assert!(is_duration(number), "{:?}", number);
        assert!(number.parse::<f32>().unwrap() >= 0.0);
    }
}

#[test]
fn is_duration_token_reads_a_piece_of_a_text() {
    let chars = chars_of("x6.0,-1");
    assert!(is_duration_token(&chars, 1, 4));
    assert!(!is_duration_token(&chars, 0, 4));
    assert!(!is_duration_token(&chars, 5, 7));
    assert!(is_duration_token(&chars, 6, 7));
    assert!(!is_duration_token(&chars, 4, 4));
}
