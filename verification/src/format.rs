//! Rendering of values for people: decimal numbers, human-readable sizes,
//! HTML-escaped text and the icon shown for a file.
use vstd::prelude::*;
use crate::text::{chars_of, push_str, split_chars, string_of, chars_are, split_on, starts_with, texts};

verus! {

/// The decimal digit character for `d` (`0 <= d < 10`).
pub open spec fn digit(d: nat) -> char {
    (d + 48) as char
}

/// The decimal notation of `n`, without leading zeros.
pub open spec fn decimal(n: nat) -> Seq<char>
    decreases n,
{
    if n < 10 {
        seq![digit(n)]
    } else {
        decimal(n / 10).push(digit(n % 10))
    }
}

fn digit_char(d: u8) -> (c: char)
    requires
        d < 10,
    ensures
        c == digit(d as nat),
{
    (d + 48) as char
}

/// Appends the decimal notation of `n` to `out`.
pub fn push_decimal(out: &mut Vec<char>, n: u128)
    ensures
        final(out)@ == old(out)@ + decimal(n as nat),
    decreases n,
{
    if n < 10 {
        out.push(digit_char(n as u8));
    } else {
        push_decimal(out, n / 10);
        out.push(digit_char((n % 10) as u8));
    }
}

/// `n / d` rounded to the nearest integer, ties to the even one.
pub open spec fn round_div(n: nat, d: nat) -> nat
    recommends
        d > 0,
{
    let q = n / d;
    let r = n % d;
    if 2 * r > d || (2 * r == d && q % 2 == 1) {
        q + 1
    } else {
        q
    }
}

fn round_div_exec(n: u128, d: u128) -> (q: u128)
    requires
        d > 0,
        n <= 0x1_0000_0000_0000_0000_0000_0000,
        d <= 0x1_0000_0000_0000_0000,
    ensures
        q == round_div(n as nat, d as nat),
{
    let q = n / d;
    let r = n % d;
    if 2 * r > d || (2 * r == d && q % 2 == 1) {
        q + 1
    } else {
        q
    }
}

/// The spacing between neighbouring `f64` values around the integer `b < 2^64`.
pub open spec fn f64_spacing(b: nat) -> nat {
    if b < 0x20_0000_0000_0000 {
        1
    } else if b < 0x40_0000_0000_0000 {
        2
    } else if b < 0x80_0000_0000_0000 {
        4
    } else if b < 0x100_0000_0000_0000 {
        8
    } else if b < 0x200_0000_0000_0000 {
        16
    } else if b < 0x400_0000_0000_0000 {
        32
    } else if b < 0x800_0000_0000_0000 {
        64
    } else if b < 0x1000_0000_0000_0000 {
        128
    } else if b < 0x2000_0000_0000_0000 {
        256
    } else if b < 0x4000_0000_0000_0000 {
        512
    } else if b < 0x8000_0000_0000_0000 {
        1024
    } else {
        2048
    }
}

/// The value of the integer `b < 2^64` once converted to `f64`: the nearest
/// multiple of the spacing, ties to an even multiple.
pub open spec fn as_f64(b: nat) -> nat {
    round_div(b, f64_spacing(b)) * f64_spacing(b)
}

fn f64_spacing_exec(b: u64) -> (p: u128)
    ensures
        p == f64_spacing(b as nat),
        1 <= p <= 2048,
{
    if b < 0x20_0000_0000_0000 {
        1
    } else if b < 0x40_0000_0000_0000 {
        2
    } else if b < 0x80_0000_0000_0000 {
        4
    } else if b < 0x100_0000_0000_0000 {
        8
    } else if b < 0x200_0000_0000_0000 {
        16
    } else if b < 0x400_0000_0000_0000 {
        32
    } else if b < 0x800_0000_0000_0000 {
        64
    } else if b < 0x1000_0000_0000_0000 {
        128
    } else if b < 0x2000_0000_0000_0000 {
        256
    } else if b < 0x4000_0000_0000_0000 {
        512
    } else if b < 0x8000_0000_0000_0000 {
        1024
    } else {
        2048
    }
}

fn as_f64_exec(b: u64) -> (v: u128)
    ensures
        v == as_f64(b as nat),
        v <= 0x1_0000_0000_0000_0800,
{
    let p = f64_spacing_exec(b);
    let q = round_div_exec(b as u128, p);
    proof {
        let bb = b as int;
        let pp = p as int;
        assert(q <= bb / pp + 1);
        assert((bb / pp) * pp <= bb) by (nonlinear_arith)
            requires
                pp > 0,
        ;
        assert(q * pp <= bb + pp) by (nonlinear_arith)
            requires
                q <= bb / pp + 1,
                (bb / pp) * pp <= bb,
                pp > 0,
        ;
    }
    q * p
}

/// `t / 10` written with one decimal place.
pub open spec fn tenths(t: nat) -> Seq<char> {
    decimal(t / 10).push('.').push(digit(t % 10))
}

/// `t / 100` written with two decimal places.
pub open spec fn hundredths(t: nat) -> Seq<char> {
    decimal(t / 100).push('.').push(digit((t / 10) % 10)).push(digit(t % 10))
}

/// A byte count in the unit that suits it: bytes below 1 KiB, then KB and MB
/// with one decimal and GB with two, each rounded half to even as `f64`
/// formatting rounds it.
pub open spec fn size_text(b: nat) -> Seq<char> {
    if b < 1024 {
        decimal(b) + " B"@
    } else if b < 1_048_576 {
        tenths(round_div(b * 10, 1024)) + " KB"@
    } else if b < 1_073_741_824 {
        tenths(round_div(b * 10, 1_048_576)) + " MB"@
    } else {
        hundredths(round_div(as_f64(b) * 100, 1_073_741_824)) + " GB"@
    }
}

/// A human-readable size, such as `512 B`, `1.5 KB`, `3.0 MB` or `2.25 GB`.
pub fn format_size(bytes: u64) -> (s: String)
    ensures
        s@ == size_text(bytes as nat),
{
    let mut out: Vec<char> = Vec::new();
    if bytes < 1024 {
        push_decimal(&mut out, bytes as u128);
        push_str(&mut out, " B");
    } else if bytes < 1_048_576 {
        let t = round_div_exec(bytes as u128 * 10, 1024);
        push_decimal(&mut out, t / 10);
        out.push('.');
        out.push(digit_char((t % 10) as u8));
        push_str(&mut out, " KB");
    } else if bytes < 1_073_741_824 {
        let t = round_div_exec(bytes as u128 * 10, 1_048_576);
        push_decimal(&mut out, t / 10);
        out.push('.');
        out.push(digit_char((t % 10) as u8));
        push_str(&mut out, " MB");
    } else {
        let f = as_f64_exec(bytes);
        let t = round_div_exec(f * 100, 1_073_741_824);
        push_decimal(&mut out, t / 100);
        out.push('.');
        out.push(digit_char(((t / 10) % 10) as u8));
        out.push(digit_char((t % 10) as u8));
        push_str(&mut out, " GB");
    }
    string_of(out.as_slice())
}

/// The HTML form of one character: `&`, `<`, `>` and `"` become entities.
pub open spec fn escape_char(c: char) -> Seq<char> {
    if c == '&' {
        "&amp;"@
    } else if c == '<' {
        "&lt;"@
    } else if c == '>' {
        "&gt;"@
    } else if c == '"' {
        "&quot;"@
    } else {
        seq![c]
    }
}

/// `s` with each character replaced by its HTML form.
pub open spec fn escaped(s: Seq<char>) -> Seq<char>
    decreases s.len(),
{
    if s.len() == 0 {
        Seq::<char>::empty()
    } else {
        escaped(s.drop_last()) + escape_char(s.last())
    }
}

/// Appends the HTML-escaped form of `s` to `out`.
pub fn push_escaped(out: &mut Vec<char>, s: &str)
    ensures
        final(out)@ == old(out)@ + escaped(s@),
{
    let cs = chars_of(s);
    let ghost start = out@;
    let mut i: usize = 0;
    while i < cs.len()
        invariant
            i <= cs@.len(),
            cs@ == s@,
            out@ == start + escaped(s@.take(i as int)),
        decreases cs@.len() - i,
    {
        let c = cs[i];
        assert(s@.take(i + 1).drop_last() =~= s@.take(i as int));
        if c == '&' {
            push_str(out, "&amp;");
        } else if c == '<' {
            push_str(out, "&lt;");
        } else if c == '>' {
            push_str(out, "&gt;");
        } else if c == '"' {
            push_str(out, "&quot;");
        } else {
            out.push(c);
        }
        assert(out@ =~= start + escaped(s@.take(i + 1)));
        i += 1;
    }
    assert(s@.take(i as int) =~= s@);
}

/// `s` with `&`, `<`, `>` and `"` written as HTML entities.
pub fn html_escape(s: &str) -> (r: String)
    ensures
        r@ == escaped(s@),
{
    let mut out: Vec<char> = Vec::new();
    push_escaped(&mut out, s);
    string_of(out.as_slice())
}

/// What `str::to_lowercase` returns for `s` (the Unicode lower-case mapping).
pub uninterp spec fn lowercase(s: Seq<char>) -> Seq<char>;

/// Whether every character of `s` is ASCII.
pub open spec fn ascii_text(s: Seq<char>) -> bool {
    forall|i: int| 0 <= i < s.len() ==> (#[trigger] s[i] as u32) < 128
}

/// `c` with `A`..`Z` turned into `a`..`z`.
pub open spec fn ascii_lower(c: char) -> char {
    if 'A' <= c && c <= 'Z' {
        ((c as u32) + 32) as char
    } else {
        c
    }
}

/// `s` with its ASCII capitals turned into small letters.
pub open spec fn ascii_lowered(s: Seq<char>) -> Seq<char> {
    s.map_values(|c: char| ascii_lower(c))
}

/// `str::to_lowercase`: the result is the lower-case mapping of the argument,
/// a function of the argument alone; on ASCII text that mapping turns `A`..`Z`
/// into `a`..`z` and keeps every other character.
#[verifier::external_body]
fn to_lowercase(s: &str) -> (r: String)
    ensures
        r@ == lowercase(s@),
        ascii_text(s@) ==> r@ == ascii_lowered(s@),
{
    s.to_lowercase()
}

/// The part of a file name after its last `.` (the whole name when it has none).
pub open spec fn extension(name: Seq<char>) -> Seq<char> {
    split_on(name, '.').last()
}

/// The icon for a lower-case file extension.
pub open spec fn icon_for(ext: Seq<char>) -> Seq<char> {
    if ext == "pdf"@ {
        "📄"@
    } else if ext == "doc"@ || ext == "docx"@ {
        "📝"@
    } else if ext == "xls"@ || ext == "xlsx"@ {
        "📊"@
    } else if ext == "ppt"@ || ext == "pptx"@ {
        "📑"@
    } else if ext == "jpg"@ || ext == "jpeg"@ || ext == "png"@ || ext == "gif"@ || ext
        == "webp"@ || ext == "svg"@ {
        "🖼"@
    } else if ext == "mp4"@ || ext == "mov"@ || ext == "avi"@ || ext == "mkv"@ || ext
        == "webm"@ {
        "🎬"@
    } else if ext == "mp3"@ || ext == "wav"@ || ext == "flac"@ || ext == "ogg"@ {
        "🎵"@
    } else if ext == "zip"@ || ext == "rar"@ || ext == "7z"@ || ext == "tar"@ || ext
        == "gz"@ {
        "🗜"@
    } else if ext == "js"@ || ext == "ts"@ || ext == "py"@ || ext == "html"@ || ext
        == "css"@ || ext == "json"@ || ext == "rs"@ {
        "💻"@
    } else if ext == "txt"@ || ext == "md"@ {
        "📄"@
    } else if ext == "apk"@ {
        "📱"@
    } else {
        "📦"@
    }
}

/// The icon for an already lower-cased extension.
pub fn icon_for_extension(ext: &str) -> (icon: &'static str)
    ensures
        icon@ == icon_for(ext@),
{
    let e = chars_of(ext);
    let e = e.as_slice();
    if chars_are(e, "pdf") {
        "📄"
    } else if chars_are(e, "doc") || chars_are(e, "docx") {
        "📝"
    } else if chars_are(e, "xls") || chars_are(e, "xlsx") {
        "📊"
    } else if chars_are(e, "ppt") || chars_are(e, "pptx") {
        "📑"
    } else if chars_are(e, "jpg") || chars_are(e, "jpeg") || chars_are(e, "png") || chars_are(
        e,
        "gif",
    ) || chars_are(e, "webp") || chars_are(e, "svg") {
        "🖼"
    } else if chars_are(e, "mp4") || chars_are(e, "mov") || chars_are(e, "avi") || chars_are(
        e,
        "mkv",
    ) || chars_are(e, "webm") {
        "🎬"
    } else if chars_are(e, "mp3") || chars_are(e, "wav") || chars_are(e, "flac") || chars_are(
        e,
        "ogg",
    ) {
        "🎵"
    } else if chars_are(e, "zip") || chars_are(e, "rar") || chars_are(e, "7z") || chars_are(
        e,
        "tar",
    ) || chars_are(e, "gz") {
        "🗜"
    } else if chars_are(e, "js") || chars_are(e, "ts") || chars_are(e, "py") || chars_are(
        e,
        "html",
    ) || chars_are(e, "css") || chars_are(e, "json") || chars_are(e, "rs") {
        "💻"
    } else if chars_are(e, "txt") || chars_are(e, "md") {
        "📄"
    } else if chars_are(e, "apk") {
        "📱"
    } else {
        "📦"
    }
}

/// The extension of `name`: what follows its last `.`, or all of it.
pub fn file_extension(name: &str) -> (ext: String)
    ensures
        ext@ == extension(name@),
{
    let cs = chars_of(name);
    let pieces = split_chars(cs.as_slice(), '.');
    proof {
        crate::text::lemma_split_on_nonempty(name@, '.');
    }
    let last = pieces.len() - 1;
    proof {
        assert(texts(pieces@)[last as int] == pieces@[last as int]@);
    }
    string_of(pieces[last].as_slice())
}

/// The icon shown beside a file: chosen by its lower-cased extension.
pub fn get_file_emoji(name: &str) -> (icon: &'static str)
    ensures
        icon@ == icon_for(lowercase(extension(name@))),
        ascii_text(extension(name@)) ==> icon@ == icon_for(ascii_lowered(extension(name@))),
{
    let ext = file_extension(name);
    let lower = to_lowercase(ext.as_str());
    icon_for_extension(lower.as_str())
}

/// Escaped text holds no markup: no `<`, `>` or `"` is left in it.
pub proof fn lemma_escaped_has_no_markup(s: Seq<char>)
    ensures
        forall|i: int|
            0 <= i < escaped(s).len() ==> #[trigger] escaped(s)[i] != '<' && escaped(s)[i] != '>'
                && escaped(s)[i] != '"',
    decreases s.len(),
{
    if s.len() > 0 {
        lemma_escaped_has_no_markup(s.drop_last());
        reveal_strlit("&amp;");
        reveal_strlit("&lt;");
        reveal_strlit("&gt;");
        reveal_strlit("&quot;");
        let prev = escaped(s.drop_last());
        let tail = escape_char(s.last());
        assert forall|i: int| 0 <= i < tail.len() implies tail[i] != '<' && tail[i] != '>'
            && tail[i] != '"' by {}
        assert forall|i: int| 0 <= i < escaped(s).len() implies #[trigger] escaped(s)[i] != '<'
            && escaped(s)[i] != '>' && escaped(s)[i] != '"' by {
            if i < prev.len() {
                assert(escaped(s)[i] == prev[i]);
            } else {
                assert(escaped(s)[i] == tail[i - prev.len()]);
            }
        }
    }
}

/// The characters that HTML escaping rewrites.
pub open spec fn is_markup(c: char) -> bool {
    c == '&' || c == '<' || c == '>' || c == '"'
}

/// Whether `s` holds a character that escaping rewrites.
pub open spec fn has_markup(s: Seq<char>) -> bool {
    exists|i: int| 0 <= i < s.len() && is_markup(#[trigger] s[i])
}

/// Whether one of the four entities begins at position `i` of `t`.
pub open spec fn entity_at(t: Seq<char>, i: int) -> bool {
    let rest = t.skip(i);
    starts_with(rest, "&amp;"@) || starts_with(rest, "&lt;"@) || starts_with(rest, "&gt;"@)
        || starts_with(rest, "&quot;"@)
}

/// `s` with each leftmost, non-overlapping occurrence of the non-empty pattern
/// `p` replaced by `r`, as `str::replace` does.
pub open spec fn replaced(s: Seq<char>, p: Seq<char>, r: Seq<char>) -> Seq<char>
    decreases s.len(),
{
    if s.len() == 0 || p.len() == 0 {
        s
    } else if starts_with(s, p) {
        r + replaced(s.skip(p.len() as int), p, r)
    } else {
        seq![s[0]] + replaced(s.drop_first(), p, r)
    }
}

/// The entities turned back into characters, in the order `&quot;`, `&gt;`,
/// `&lt;`, `&amp;`.
pub open spec fn unescaped(t: Seq<char>) -> Seq<char> {
    replaced(
        replaced(replaced(replaced(t, "&quot;"@, seq!['"']), "&gt;"@, seq!['>']), "&lt;"@, seq!['<']),
        "&amp;"@,
        seq!['&'],
    )
}

proof fn lemma_entity_texts()
    ensures
        "&amp;"@ == seq!['&', 'a', 'm', 'p', ';'],
        "&lt;"@ == seq!['&', 'l', 't', ';'],
        "&gt;"@ == seq!['&', 'g', 't', ';'],
        "&quot;"@ == seq!['&', 'q', 'u', 'o', 't', ';'],
{
    reveal_strlit("&amp;");
    reveal_strlit("&lt;");
    reveal_strlit("&gt;");
    reveal_strlit("&quot;");
    assert("&amp;"@ =~= seq!['&', 'a', 'm', 'p', ';']);
    assert("&lt;"@ =~= seq!['&', 'l', 't', ';']);
    assert("&gt;"@ =~= seq!['&', 'g', 't', ';']);
    assert("&quot;"@ =~= seq!['&', 'q', 'u', 'o', 't', ';']);
}

/// Text escaped is never shorter, and longer exactly when it held markup;
/// text without markup is left as it is.
proof fn lemma_escaped_len(s: Seq<char>)
    ensures
        escaped(s).len() >= s.len(),
        has_markup(s) ==> escaped(s).len() > s.len(),
        !has_markup(s) ==> escaped(s) == s,
    decreases s.len(),
{
    if s.len() > 0 {
        let p = s.drop_last();
        lemma_escaped_len(p);
        lemma_entity_texts();
        if has_markup(p) {
            let i = choose|i: int| 0 <= i < p.len() && is_markup(p[i]);
            assert(is_markup(s[i]));
        }
        if !has_markup(s) {
            assert forall|i: int| 0 <= i < p.len() implies !is_markup(#[trigger] p[i]) by {
                assert(s[i] == p[i]);
            }
            assert(!is_markup(s[s.len() - 1]));
            assert(s =~= p.push(s.last()));
        }
        if has_markup(s) && !has_markup(p) {
            let i = choose|i: int| 0 <= i < s.len() && is_markup(s[i]);
            if i < p.len() {
                assert(p[i] == s[i]);
            }
        }
    }
}

/// Escaping leaves a text unchanged exactly when it holds none of `&`, `<`,
/// `>` and `"`.
pub proof fn lemma_escape_identity(s: Seq<char>)
    ensures
        (escaped(s) == s) <==> !has_markup(s),
{
    lemma_escaped_len(s);
}

/// In escaped text every `&` begins one of `&amp;`, `&lt;`, `&gt;`, `&quot;`.
pub proof fn lemma_escaped_ampersands(s: Seq<char>)
    ensures
        forall|i: int| 0 <= i < escaped(s).len() && #[trigger] escaped(s)[i] == '&' ==> entity_at(escaped(s), i),
    decreases s.len(),
{
    if s.len() > 0 {
        let p = s.drop_last();
        lemma_escaped_ampersands(p);
        lemma_entity_texts();
        let ep = escaped(p);
        let e = escape_char(s.last());
        let t = escaped(s);
        assert(t == ep + e);
        assert forall|i: int| 0 <= i < t.len() && #[trigger] t[i] == '&' implies entity_at(t, i) by {
            if i < ep.len() {
                assert(ep[i] == '&');
                assert(entity_at(ep, i));
                let rest = ep.skip(i);
                assert(t.skip(i) =~= rest + e);
                let ent = if starts_with(rest, "&amp;"@) {
                    "&amp;"@
                } else if starts_with(rest, "&lt;"@) {
                    "&lt;"@
                } else if starts_with(rest, "&gt;"@) {
                    "&gt;"@
                } else {
                    "&quot;"@
                };
                assert(starts_with(rest, ent));
                assert((rest + e).take(ent.len() as int) =~= rest.take(ent.len() as int));
            } else {
                assert(t[i] == e[i - ep.len()]);
                assert(i == ep.len());
                assert(t.skip(i) =~= e);
                assert(e.take(e.len() as int) =~= e);
                assert(e == "&amp;"@ || e == "&lt;"@ || e == "&gt;"@ || e == "&quot;"@);
            }
        }
    }
}

// The round trip is proved level by level: at level `n`, the first `n` of
// `&`, `<`, `>`, `"` are written as entities.
spec fn esc_level(c: char, n: nat) -> Seq<char> {
    if c == '&' && n >= 1 {
        "&amp;"@
    } else if c == '<' && n >= 2 {
        "&lt;"@
    } else if c == '>' && n >= 3 {
        "&gt;"@
    } else if c == '"' && n >= 4 {
        "&quot;"@
    } else {
        seq![c]
    }
}

spec fn cat_level(s: Seq<char>, n: nat) -> Seq<char>
    decreases s.len(),
{
    if s.len() == 0 {
        s
    } else {
        esc_level(s[0], n) + cat_level(s.drop_first(), n)
    }
}

/// The entity undone when going from level `n` down to `n - 1`.
spec fn level_entity(n: nat) -> Seq<char> {
    if n == 1 {
        "&amp;"@
    } else if n == 2 {
        "&lt;"@
    } else if n == 3 {
        "&gt;"@
    } else {
        "&quot;"@
    }
}

spec fn level_char(n: nat) -> char {
    if n == 1 {
        '&'
    } else if n == 2 {
        '<'
    } else if n == 3 {
        '>'
    } else {
        '"'
    }
}

proof fn lemma_cat_push(s: Seq<char>, c: char, n: nat)
    ensures
        cat_level(s.push(c), n) == cat_level(s, n) + esc_level(c, n),
    decreases s.len(),
{
    if s.len() == 0 {
        assert(s.push(c).drop_first() =~= s);
        assert(cat_level(s.push(c), n) =~= esc_level(c, n));
    } else {
        assert(s.push(c).drop_first() =~= s.drop_first().push(c));
        lemma_cat_push(s.drop_first(), c, n);
        assert(cat_level(s.push(c), n) =~= cat_level(s, n) + esc_level(c, n));
    }
}

proof fn lemma_escaped_is_level_four(s: Seq<char>)
    ensures
        escaped(s) == cat_level(s, 4),
    decreases s.len(),
{
    if s.len() > 0 {
        lemma_escaped_is_level_four(s.drop_last());
        lemma_cat_push(s.drop_last(), s.last(), 4);
        assert(s.drop_last().push(s.last()) =~= s);
    }
}

proof fn lemma_level_zero(s: Seq<char>)
    ensures
        cat_level(s, 0) == s,
    decreases s.len(),
{
    if s.len() > 0 {
        lemma_level_zero(s.drop_first());
        assert(seq![s[0]] + s.drop_first() =~= s);
    }
}

/// Text free of `&` passes a replacement of a pattern that starts with `&`.
proof fn lemma_replace_passes(x: Seq<char>, y: Seq<char>, p: Seq<char>, r: Seq<char>)
    requires
        p.len() > 0,
        p[0] == '&',
        forall|i: int| 0 <= i < x.len() ==> x[i] != '&',
    ensures
        replaced(x + y, p, r) == x + replaced(y, p, r),
    decreases x.len(),
{
    if x.len() > 0 {
        let xy = x + y;
        assert(xy[0] == x[0]);
        assert(!starts_with(xy, p)) by {
            if starts_with(xy, p) {
                assert(xy.take(p.len() as int)[0] == p[0]);
            }
        }
        assert(xy.drop_first() =~= x.drop_first() + y);
        lemma_replace_passes(x.drop_first(), y, p, r);
        assert(seq![x[0]] + (x.drop_first() + replaced(y, p, r)) =~= x + replaced(y, p, r));
    } else {
        assert(x + y =~= y);
        assert(x + replaced(y, p, r) =~= replaced(y, p, r));
    }
}

/// One replacement step turns level `n` into level `n - 1`.
proof fn lemma_unescape_level(s: Seq<char>, n: nat)
    requires
        1 <= n <= 4,
    ensures
        replaced(cat_level(s, n), level_entity(n), seq![level_char(n)]) == cat_level(s, (n - 1) as nat),
    decreases s.len(),
{
    lemma_entity_texts();
    let p = level_entity(n);
    let r = seq![level_char(n)];
    if s.len() == 0 {
        assert(cat_level(s, n).len() == 0);
    } else {
        let c = s[0];
        let rest = s.drop_first();
        let e = esc_level(c, n);
        let tail = cat_level(rest, n);
        lemma_unescape_level(rest, n);
        assert(cat_level(s, n) == e + tail);
        if c == level_char(n) {
            assert(e == p);
            assert(starts_with(e + tail, p)) by {
                assert((e + tail).take(p.len() as int) =~= p);
            }
            assert((e + tail).skip(p.len() as int) =~= tail);
            assert(esc_level(c, (n - 1) as nat) == r);
        } else {
            assert(esc_level(c, (n - 1) as nat) == e);
            if e.len() == 1 {
                assert(e == seq![c]);
                assert(c != '&');
                lemma_replace_passes(e, tail, p, r);
            } else {
                // `e` is another entity: it differs from `p` in its second character.
                assert(e[0] == '&' && e[1] != p[1]);
                let et = e + tail;
                assert(!starts_with(et, p)) by {
                    if starts_with(et, p) {
                        assert(et.take(p.len() as int)[1] == p[1]);
                    }
                }
                assert(et.drop_first() =~= e.drop_first() + tail);
                lemma_replace_passes(e.drop_first(), tail, p, r);
                assert(seq![e[0]] + (e.drop_first() + replaced(tail, p, r)) =~= e + replaced(
                    tail,
                    p,
                    r,
                ));
            }
        }
    }
}

/// Escaping can be undone: turning the entities back into characters (`&quot;`,
/// then `&gt;`, `&lt;` and `&amp;`) gives back the text.
pub proof fn lemma_unescape_escaped(s: Seq<char>)
    ensures
        unescaped(escaped(s)) == s,
{
    lemma_entity_texts();
    lemma_escaped_is_level_four(s);
    lemma_unescape_level(s, 4);
    lemma_unescape_level(s, 3);
    lemma_unescape_level(s, 2);
    lemma_unescape_level(s, 1);
    lemma_level_zero(s);
}

} // verus!
