//! What the library takes from outside: the wall clock, random file
//! identifiers, file-name sanitising and lossy UTF-8 decoding.
use vstd::prelude::*;
use vstd::utf8::{valid_utf8, decode_utf8};

verus! {

/// An ASCII decimal digit.
pub open spec fn is_digit(c: char) -> bool {
    '0' <= c && c <= '9'
}

/// Two digits at `at` and `at + 1`.
pub open spec fn two_digits(t: Seq<char>, at: int) -> bool {
    is_digit(t[at]) && is_digit(t[at + 1])
}

/// A time of day written `HH:MM`.
pub open spec fn clock_minutes(t: Seq<char>) -> bool {
    t.len() == 5 && two_digits(t, 0) && t[2] == ':' && two_digits(t, 3)
}

/// A time of day written `HH:MM:SS`.
pub open spec fn clock_seconds(t: Seq<char>) -> bool {
    t.len() == 8 && two_digits(t, 0) && t[2] == ':' && two_digits(t, 3) && t[5] == ':'
        && two_digits(t, 6)
}

/// The local time of day written with `pattern` (`chrono::Local::now` and
/// `DelayedFormat::to_string`). Which time it is depends on the clock and the
/// time zone, so only its shape is claimed: `%H`, `%M` and `%S` write
/// zero-padded two-digit numbers, separated here by `:`. The crate panics when
/// the system clock reads a time before 1970 or the time-zone data cannot be
/// read as valid, which no argument can rule out.
#[verifier::external_body]
pub fn local_time(pattern: &str) -> (t: String)
    requires
        pattern@ == "%H:%M"@ || pattern@ == "%H:%M:%S"@,
    ensures
        pattern@ == "%H:%M"@ ==> clock_minutes(t@),
        pattern@ == "%H:%M:%S"@ ==> clock_seconds(t@),
{
    chrono::Local::now().format(pattern).to_string()
}

/// A lower-case hexadecimal digit.
pub open spec fn is_lower_hex(c: char) -> bool {
    is_digit(c) || ('a' <= c && c <= 'f')
}

/// The hyphenated form of a UUID: 36 characters, `-` at positions 8, 13, 18
/// and 23, lower-case hexadecimal digits everywhere else.
pub open spec fn uuid_text(id: Seq<char>) -> bool {
    &&& id.len() == 36
    &&& forall|i: int|
        0 <= i < 36 ==> if i == 8 || i == 13 || i == 18 || i == 23 {
            id[i] == '-'
        } else {
            is_lower_hex(#[trigger] id[i])
        }
}

/// A fresh random identifier (`uuid::Uuid::new_v4` written by `to_string`):
/// the claim is only its shape, the hyphenated lower-case form that the
/// crate's `Display` writes. The crate panics when the operating system's
/// random source fails, which no argument can rule out.
#[verifier::external_body]
pub fn new_file_id() -> (id: String)
    ensures
        uuid_text(id@),
{
    uuid::Uuid::new_v4().to_string()
}

/// The characters that sanitising always removes from a file name: the
/// separators and reserved punctuation `/ ? < > \ : * | "` and the control
/// characters `U+0000..U+001F` and `U+0080..U+009F`.
pub open spec fn unsafe_in_name(c: char) -> bool {
    ||| c == '/' || c == '?' || c == '<' || c == '>' || c == '\\'
    ||| c == ':' || c == '*' || c == '|' || c == '"'
    ||| ('\u{0}' <= c && c <= '\u{1f}')
    ||| ('\u{80}' <= c && c <= '\u{9f}')
}

/// Keeps the characters that may stand in a file name.
pub open spec fn name_safe() -> spec_fn(char) -> bool {
    |c: char| !unsafe_in_name(c)
}

/// Whether `s` is one or more dots.
pub open spec fn all_dots(s: Seq<char>) -> bool {
    s.len() > 0 && forall|i: int| 0 <= i < s.len() ==> s[i] == '.'
}

/// The bytes that UTF-8 uses for `c`.
pub open spec fn utf8_width(c: char) -> nat {
    if (c as u32) < 0x80 {
        1
    } else if (c as u32) < 0x800 {
        2
    } else if (c as u32) < 0x10000 {
        3
    } else {
        4
    }
}

/// The length of `s` in UTF-8 bytes.
pub open spec fn utf8_len(s: Seq<char>) -> nat
    decreases s.len(),
{
    if s.len() == 0 {
        0
    } else {
        utf8_width(s[0]) + utf8_len(s.drop_first())
    }
}

/// The longest prefix of `s` that takes at most `budget` UTF-8 bytes.
pub open spec fn fit_prefix(s: Seq<char>, budget: int) -> Seq<char>
    decreases s.len(),
{
    if s.len() == 0 || budget < utf8_width(s[0]) {
        Seq::empty()
    } else {
        seq![s[0]] + fit_prefix(s.drop_first(), budget - utf8_width(s[0]))
    }
}

/// What `sanitize_filename::sanitize` returns for `name` with its default
/// (non-Windows) options: the unsafe characters are dropped, a name left
/// with dots only becomes empty, and a name over 255 UTF-8 bytes is cut at
/// the last character boundary within 255 bytes.
pub open spec fn sanitized(name: Seq<char>) -> Seq<char> {
    let kept = name.filter(name_safe());
    let cleared = if all_dots(kept) {
        Seq::empty()
    } else {
        kept
    };
    fit_prefix(cleared, 255)
}

/// `sanitize_filename::sanitize` with its default (non-Windows) options, as
/// its source reads in the version used: three regular-expression passes and
/// a cut to 255 bytes, stated by [`sanitized`].
#[verifier::external_body]
pub fn sanitize_name(name: &str) -> (r: String)
    ensures
        r@ == sanitized(name@),
{
    sanitize_filename::sanitize(name)
}

/// A prefix that fits keeps the characters in order; a text that fits is
/// kept whole, and one that does not keeps more than `budget - 4` bytes.
pub proof fn lemma_fit_prefix(s: Seq<char>, budget: int)
    ensures
        fit_prefix(s, budget).len() <= s.len(),
        forall|i: int|
            0 <= i < fit_prefix(s, budget).len() ==> #[trigger] fit_prefix(s, budget)[i] == s[i],
        utf8_len(s) <= budget ==> fit_prefix(s, budget) == s,
        utf8_len(s) > budget ==> utf8_len(fit_prefix(s, budget)) > budget - 4,
    decreases s.len(),
{
    if s.len() > 0 {
        lemma_fit_prefix(s.drop_first(), budget - utf8_width(s[0]));
        if budget >= utf8_width(s[0]) {
            let rest = fit_prefix(s.drop_first(), budget - utf8_width(s[0]));
            let p = seq![s[0]] + rest;
            assert(p.drop_first() =~= rest);
            assert(p[0] == s[0]);
            if utf8_len(s) <= budget {
                assert(p =~= s);
            }
        }
    }
}

/// Filtering by `name_safe` keeps a text whose characters are all safe.
proof fn lemma_safe_filter_keeps(s: Seq<char>)
    requires
        forall|i: int| 0 <= i < s.len() ==> !unsafe_in_name(#[trigger] s[i]),
    ensures
        s.filter(name_safe()) == s,
    decreases s.len(),
{
    reveal(Seq::filter);
    if s.len() > 0 {
        lemma_safe_filter_keeps(s.drop_last());
        assert(name_safe()(s.last()));
        assert(s.drop_last().push(s.last()) =~= s);
    }
}

/// A name with no unsafe character, not made of dots only, and of at most
/// 255 UTF-8 bytes comes back from sanitising unchanged.
pub proof fn lemma_clean_name_kept(name: Seq<char>)
    requires
        forall|i: int| 0 <= i < name.len() ==> !unsafe_in_name(#[trigger] name[i]),
        !all_dots(name),
        utf8_len(name) <= 255,
    ensures
        sanitized(name) == name,
{
    lemma_safe_filter_keeps(name);
    lemma_fit_prefix(name, 255);
}

/// A sanitised name holds no unsafe character and is never `.` or `..`.
pub proof fn lemma_sanitized_safe(name: Seq<char>)
    ensures
        forall|i: int|
            0 <= i < sanitized(name).len() ==> !unsafe_in_name(#[trigger] sanitized(name)[i]),
        sanitized(name) != seq!['.'],
        sanitized(name) != seq!['.', '.'],
{
    let kept = name.filter(name_safe());
    let cleared = if all_dots(kept) {
        Seq::<char>::empty()
    } else {
        kept
    };
    let r = sanitized(name);
    lemma_fit_prefix(cleared, 255);
    assert forall|i: int| 0 <= i < r.len() implies !unsafe_in_name(#[trigger] r[i]) by {
        assert(r[i] == cleared[i]);
        name.lemma_filter_pred(name_safe(), i);
    }
    if r == seq!['.'] || r == seq!['.', '.'] {
        assert(utf8_len(seq!['.']) == 1) by {
            reveal_with_fuel(utf8_len, 2);
        }
        assert(utf8_len(seq!['.', '.']) == 2) by {
            reveal_with_fuel(utf8_len, 3);
        }
        if utf8_len(cleared) <= 255 {
            assert(r == cleared);
            assert(all_dots(kept));
            assert(false);
        }
    }
}

/// What `String::from_utf8_lossy` returns for `bytes`.
pub uninterp spec fn utf8_lossy(bytes: Seq<u8>) -> Seq<char>;

/// `String::from_utf8_lossy`: named, and for valid UTF-8 it is the decoded text,
/// as the standard library documents.
#[verifier::external_body]
pub fn lossy_text(bytes: &[u8]) -> (t: String)
    ensures
        t@ == utf8_lossy(bytes@),
        valid_utf8(bytes@) ==> t@ == decode_utf8(bytes@),
{
    String::from_utf8_lossy(bytes).to_string()
}

} // verus!
