use wifly::text::{chars_of, is_space_char, lines_of, split_chars, trimmed, words_of};

fn strings(v: Vec<Vec<char>>) -> Vec<String> {
    v.into_iter().map(|c| c.into_iter().collect()).collect()
}

const SAMPLES: &[&str] = &[
    "",
    "\n",
    "a",
    "a\n",
    "a\nb",
    "a\r\nb\r\n",
    "foo\r\nbar\n\nbaz\r",
    "foo\nbar\n\r\nbaz",
    "  x  y\t z \u{a0}w\u{3000}",
    "\r\n\r\n",
    "a\rb\n",
    "wlp3s0:wifi\nlo:loopback\n",
    " \u{2028} ",
];

#[test]
fn white_space_is_unicode_white_space() {
    for u in 0..=0x10FFFFu32 {
        if let Some(c) = char::from_u32(u) {
            assert_eq!(is_space_char(c), c.is_whitespace(), "U+{:04X}", u);
        }
    }
}

#[test]
fn lines_words_trim_split_agree_with_str() {
    for s in SAMPLES {
        let cs = chars_of(s);
        let lines: Vec<String> = s.lines().map(|l| l.to_string()).collect();
        assert_eq!(strings(lines_of(&cs)), lines, "lines of {:?}", s);
        let words: Vec<String> = s.split_whitespace().map(|l| l.to_string()).collect();
        assert_eq!(strings(words_of(&cs)), words, "words of {:?}", s);
        let t: String = trimmed(&cs).into_iter().collect();
        assert_eq!(t, s.trim());
        let parts: Vec<String> = s.split(':').map(|l| l.to_string()).collect();
        assert_eq!(strings(split_chars(&cs, ':')), parts);
    }
}
