use wifly::format::{file_extension, format_size, get_file_emoji, html_escape, icon_for_extension};

fn reference_size(bytes: u64) -> String {
    if bytes < 1024 {
        format!("{} B", bytes)
    } else if bytes < 1_048_576 {
        format!("{:.1} KB", bytes as f64 / 1024.0)
    } else if bytes < 1_073_741_824 {
        format!("{:.1} MB", bytes as f64 / 1_048_576.0)
    } else {
        format!("{:.2} GB", bytes as f64 / 1_073_741_824.0)
    }
}

#[test]
fn size_formula_exact_values() {
    assert_eq!(format_size(0), "0 B");
    assert_eq!(format_size(1023), "1023 B");
    assert_eq!(format_size(1024), "1.0 KB");
    assert_eq!(format_size(1536), "1.5 KB");
    assert_eq!(format_size(1_048_575), "1024.0 KB");
    assert_eq!(format_size(1_048_576), "1.0 MB");
    assert_eq!(format_size(3 * 1_048_576), "3.0 MB");
    assert_eq!(format_size(1_073_741_824), "1.00 GB");
    assert_eq!(format_size(2_415_919_104), "2.25 GB");
    assert_eq!(format_size(u64::MAX), "17179869184.00 GB");
}

#[test]
fn size_ties_round_to_even() {
    // 1.25 KB and 1.35 KB sit exactly between two tenths.
    assert_eq!(format_size(1280), "1.2 KB");
    assert_eq!(format_size(1126 + 256 + 2), reference_size(1126 + 256 + 2));
    assert_eq!(format_size(1_048_576 + 52_428), reference_size(1_048_576 + 52_428));
}

#[test]
fn size_matches_float_formatting_everywhere() {
    let mut edges: Vec<u64> = vec![];
    for k in 0..64u32 {
        let p = 1u64 << k;
        for d in [0u64, 1, 2, 3, 511, 512, 513, 1023, 1024, 1025] {
            edges.push(p.wrapping_add(d));
            edges.push(p.wrapping_sub(d));
        }
    }
    for b in [1024u64, 1_048_576, 1_073_741_824] {
        for m in 1..200u64 {
            edges.push(b * m / 20);
            edges.push(b * m / 20 + 1);
            edges.push(b * m / 40);
        }
    }
    let mut x: u64 = 0x9E37_79B9_7F4A_7C15;
    for _ in 0..20000 {
        x ^= x << 13;
        x ^= x >> 7;
        x ^= x << 17;
        edges.push(x);
        edges.push(x >> (x % 64));
    }
    for b in edges {
        assert_eq!(format_size(b), reference_size(b), "bytes = {}", b);
    }
}

#[test]
fn size_matches_float_formatting_small_range() {
    for b in 0..300_000u64 {
        assert_eq!(format_size(b), reference_size(b), "bytes = {}", b);
    }
}

#[test]
fn escape_matches_replacement_chain() {
    let samples = [
        "plain.txt",
        "a&b<c>d\"e",
        "&amp;",
        "<script>alert(\"x\")</script>",
        "résumé & co",
        "",
        "'single'",
    ];
    for s in samples {
        let expected = s
            .replace('&', "&amp;")
            .replace('<', "&lt;")
            .replace('>', "&gt;")
            .replace('"', "&quot;");
        assert_eq!(html_escape(s), expected);
    }
}

#[test]
fn escaped_text_has_no_markup() {
    let out = html_escape("<a href=\"x\">&</a>");
    assert_eq!(out, "&lt;a href=&quot;x&quot;&gt;&amp;&lt;/a&gt;");
    assert!(!out.contains('<') && !out.contains('>') && !out.contains('"'));
}

#[test]
fn icons_by_extension() {
    assert_eq!(get_file_emoji("report.pdf"), "📄");
    assert_eq!(get_file_emoji("REPORT.PDF"), "📄");
    assert_eq!(get_file_emoji("notes.docx"), "📝");
    assert_eq!(get_file_emoji("sheet.xlsx"), "📊");
    assert_eq!(get_file_emoji("deck.ppt"), "📑");
    assert_eq!(get_file_emoji("photo.JPeG"), "🖼");
    assert_eq!(get_file_emoji("movie.mkv"), "🎬");
    assert_eq!(get_file_emoji("song.flac"), "🎵");
    assert_eq!(get_file_emoji("archive.tar.gz"), "🗜");
    assert_eq!(get_file_emoji("main.rs"), "💻");
    assert_eq!(get_file_emoji("README.md"), "📄");
    assert_eq!(get_file_emoji("app.apk"), "📱");
    assert_eq!(get_file_emoji("binary"), "📦");
    assert_eq!(get_file_emoji("noext."), "📦");
    // A name without a dot is its own extension.
    assert_eq!(get_file_emoji("pdf"), "📄");
    // The Kelvin sign lower-cases to `k`.
    assert_eq!(get_file_emoji("video.m\u{212A}v"), "🎬");
}

#[test]
fn extension_is_text_after_last_dot() {
    assert_eq!(file_extension("a.b.c"), "c");
    assert_eq!(file_extension("abc"), "abc");
    assert_eq!(file_extension(".hidden"), "hidden");
    assert_eq!(file_extension("trailing."), "");
    assert_eq!(icon_for_extension("zip"), "🗜");
    assert_eq!(icon_for_extension("ZIP"), "📦");
}

fn unescape(t: &str) -> String {
    t.replace("&quot;", "\"").replace("&gt;", ">").replace("&lt;", "<").replace("&amp;", "&")
}

#[test]
fn escaping_round_trips_and_spares_plain_text() {
    let samples = ["", "plain", "a&b", "&amp;lt;", "<\"&\">", "&quot;&gt;", "x&&&y<<>>\"\"", "résumé"];
    for s in samples {
        let e = html_escape(s);
        assert_eq!(unescape(&e), s);
        let plain = !s.contains(['&', '<', '>', '"']);
        assert_eq!(e == s, plain, "{:?}", s);
        for (i, _) in e.match_indices('&') {
            let rest = &e[i..];
            assert!(["&amp;", "&lt;", "&gt;", "&quot;"].iter().any(|ent| rest.starts_with(ent)));
        }
    }
}
