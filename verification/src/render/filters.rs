//! The text transformations that the filters apply, and the specifications
//! that say what each returns.
use vstd::prelude::*;
use crate::text::{
    ascii_lower, ascii_lower_exec, ascii_text, is_ascii_alnum, is_ascii_alnum_exec, is_ascii_char,
    is_ascii_exec, is_whitespace, white_space, flat_map, char_width, char_width_exec,
    lemma_utf8_len_concat, lemma_utf8_len_push, lemma_utf8_len_subrange,
    lemma_utf8_len_at_least_len, lemma_split_char_pieces_width, leading_ws, lemma_leading_ws, leading_word, lemma_leading_word, from_chars, is_ascii_digit, is_ascii_digit_exec, join, lemma_flat_map_push,
    lemma_join_push, next_word, push_char, push_chars, push_str, split_char, split_chars,
    to_chars, utf8_len, lemma_utf8_len_is_encoding_len, words,
};
use crate::unicode::{
    alphabetic, char_lower, char_to_lowercase, char_to_uppercase, char_upper,
    encode_quoted_attribute, html_escape, is_alphabetic, nfkd, nfkd_chars,
};
use crate::render::types::{Content, ContentString};
use crate::render::laws::law_slugify_idempotent;

verus! {

broadcast use vstd::string::group_string_axioms;

// ---------------------------------------------------------------------------
// addslashes
// ---------------------------------------------------------------------------

/// A backslash before each backslash, double quote and single quote.
pub open spec fn slash_char(c: char) -> Seq<char> {
    if c == '\\' || c == '"' || c == '\'' {
        seq!['\\', c]
    } else {
        seq![c]
    }
}

pub open spec fn slash_fn() -> spec_fn(char) -> Seq<char> {
    |c: char| slash_char(c)
}

pub open spec fn addslashes_spec(s: Seq<char>) -> Seq<char> {
    flat_map(s, slash_fn())
}

/// Escapes backslashes and quotes with a backslash, as
/// `s.replace('\\', r"\\").replace('"', "\\\"").replace('\'', r"\'")` does.
pub fn addslashes(s: &str) -> (r: String)
    ensures
        r@ == addslashes_spec(s@),
{
    let v = to_chars(s);
    let mut out = String::new();
    let mut i: usize = 0;
    assert(v@.take(0) =~= Seq::<char>::empty());
    while i < v.len()
        invariant
            i <= v.len(),
            out@ == addslashes_spec(v@.take(i as int)),
        decreases v.len() - i,
    {
        let c = v[i];
        if c == '\\' || c == '"' || c == '\'' {
            push_char(&mut out, '\\');
        }
        push_char(&mut out, c);
        proof {
            assert(v@.take(i + 1) =~= v@.take(i as int).push(c));
            lemma_flat_map_push(v@.take(i as int), c, slash_fn());
            assert(out@ =~= addslashes_spec(v@.take(i as int)) + slash_char(c));
        }
        i = i + 1;
    }
    assert(v@.take(i as int) =~= s@);
    out
}

// ---------------------------------------------------------------------------
// escapejs
// ---------------------------------------------------------------------------

/// The upper-case hexadecimal digit for `d < 16`.
pub open spec fn hex_digit(d: nat) -> char {
    if d < 10 {
        (48 + d) as char
    } else {
        (55 + d) as char
    }
}

/// `\uXXXX` with the four upper-case hexadecimal digits of `code`.
pub open spec fn unicode_escape(code: nat) -> Seq<char> {
    seq![
        '\\',
        'u',
        hex_digit((code / 4096) % 16),
        hex_digit((code / 256) % 16),
        hex_digit((code / 16) % 16),
        hex_digit(code % 16),
    ]
}

/// The characters that `escapejs` writes as `\uXXXX`: backslash, quotes,
/// `<`, `>`, `&`, `=`, `-`, `;`, backtick, the line and paragraph
/// separators, and the control characters below U+0020.
pub open spec fn js_special(c: char) -> bool {
    ||| c == '\\'
    ||| c == '\''
    ||| c == '"'
    ||| c == '>'
    ||| c == '<'
    ||| c == '&'
    ||| c == '='
    ||| c == '-'
    ||| c == ';'
    ||| c == '`'
    ||| c == '\u{2028}'
    ||| c == '\u{2029}'
    ||| c <= '\x1f'
}

pub open spec fn js_char(c: char) -> Seq<char> {
    if js_special(c) {
        unicode_escape((c as u32) as nat)
    } else {
        seq![c]
    }
}

pub open spec fn js_fn() -> spec_fn(char) -> Seq<char> {
    |c: char| js_char(c)
}

pub open spec fn escapejs_spec(s: Seq<char>) -> Seq<char> {
    flat_map(s, js_fn())
}

proof fn lemma_char_code_below(c: char, d: char)
    requires
        c <= d,
    ensures
        (c as u32) <= (d as u32),
{
}

fn is_js_special(c: char) -> (r: bool)
    ensures
        r == js_special(c),
{
    match c {
        '\\' | '\'' | '"' | '>' | '<' | '&' | '=' | '-' | ';' | '`' | '\u{2028}' | '\u{2029}' => true,
        _ => c <= '\x1f',
    }
}

fn hex_digit_exec(d: u32) -> (r: char)
    requires
        d < 16,
    ensures
        r == hex_digit(d as nat),
{
    if d < 10 {
        let b: u8 = (48 + d) as u8;
        b as char
    } else {
        let b: u8 = (55 + d) as u8;
        b as char
    }
}

fn push_unicode_escape(out: &mut String, code: u32)
    requires
        code < 0x10000,
    ensures
        final(out)@ == old(out)@ + unicode_escape(code as nat),
{
    push_char(out, '\\');
    push_char(out, 'u');
    push_char(out, hex_digit_exec((code / 4096) % 16));
    push_char(out, hex_digit_exec((code / 256) % 16));
    push_char(out, hex_digit_exec((code / 16) % 16));
    push_char(out, hex_digit_exec(code % 16));
    assert(out@ =~= old(out)@ + unicode_escape(code as nat));
}

/// Hex encode characters for use in JavaScript strings.
pub fn escapejs(value: &str) -> (r: String)
    ensures
        r@ == escapejs_spec(value@),
{
    let v = to_chars(value);
    let mut out = String::new();
    let mut i: usize = 0;
    assert(v@.take(0) =~= Seq::<char>::empty());
    while i < v.len()
        invariant
            i <= v.len(),
            out@ == escapejs_spec(v@.take(i as int)),
        decreases v.len() - i,
    {
        let c = v[i];
        if is_js_special(c) {
            let code: u32 = c as u32;
            proof {
                lemma_char_code_below(c, '\u{2029}');
                assert(code == (c as u32));
            }
            push_unicode_escape(&mut out, code);
        } else {
            push_char(&mut out, c);
        }
        proof {
            assert(v@.take(i + 1) =~= v@.take(i as int).push(c));
            lemma_flat_map_push(v@.take(i as int), c, js_fn());
            assert(out@ =~= escapejs_spec(v@.take(i as int)) + js_char(c));
        }
        i = i + 1;
    }
    assert(v@.take(i as int) =~= value@);
    out
}

// ---------------------------------------------------------------------------
// cut
// ---------------------------------------------------------------------------

/// `s` with every occurrence of `p` removed, scanning from the left and
/// removing non-overlapping occurrences, as `str::replace(p, "")` does.
pub open spec fn remove_all(s: Seq<char>, p: Seq<char>) -> Seq<char>
    decreases s.len(),
{
    if s.len() == 0 || p.len() == 0 {
        s
    } else if p.len() <= s.len() && s.take(p.len() as int) == p {
        remove_all(s.skip(p.len() as int), p)
    } else {
        seq![s[0]] + remove_all(s.skip(1), p)
    }
}

/// Whether `p` occurs in `s` at position `i`.
fn matches_at(s: &Vec<char>, p: &Vec<char>, i: usize) -> (r: bool)
    requires
        i <= s.len(),
    ensures
        r == (p.len() <= s.len() - i && s@.skip(i as int).take(p.len() as int) == p@),
{
    if p.len() > s.len() - i {
        return false;
    }
    let mut k: usize = 0;
    while k < p.len()
        invariant
            k <= p.len() <= s.len() - i,
            forall|m: int| 0 <= m < k ==> s@[i + m] == p@[m],
        decreases p.len() - k,
    {
        if s[i + k] != p[k] {
            assert(s@.skip(i as int).take(p.len() as int)[k as int] != p@[k as int]);
            return false;
        }
        k = k + 1;
    }
    assert(s@.skip(i as int).take(p.len() as int) =~= p@);
    true
}

/// Removes every occurrence of `value` from `source`.
pub fn cut(source: &str, value: &str) -> (r: String)
    ensures
        r@ == remove_all(source@, value@),
{
    let s = to_chars(source);
    let p = to_chars(value);
    let mut out = String::new();
    if p.len() == 0 {
        push_chars(&mut out, &s, 0, s.len());
        assert(s@.subrange(0, s.len() as int) =~= s@);
        return out;
    }
    let mut i: usize = 0;
    assert(s@.skip(0) =~= s@);
    while i < s.len()
        invariant
            i <= s.len(),
            p@.len() > 0,
            p@ == value@,
            out@ + remove_all(s@.skip(i as int), p@) == remove_all(s@, p@),
        decreases s.len() - i,
    {
        let ghost t = s@.skip(i as int);
        if matches_at(&s, &p, i) {
            assert(t.skip(p.len() as int) =~= s@.skip(i + p.len()));
            i = i + p.len();
        } else {
            push_char(&mut out, s[i]);
            assert(t.skip(1) =~= s@.skip(i + 1));
            assert(out@ + remove_all(s@.skip(i + 1), p@) =~= remove_all(s@, p@));
            i = i + 1;
        }
    }
    assert(s@.skip(i as int) =~= Seq::<char>::empty());
    assert(out@ + remove_all(s@.skip(i as int), p@) =~= out@);
    out
}

// ---------------------------------------------------------------------------
// center
// ---------------------------------------------------------------------------

/// `n` spaces.
pub open spec fn spaces(n: nat) -> Seq<char> {
    Seq::new(n, |i: int| ' ')
}

/// How many spaces go to the right of a value `len` bytes long centred in a
/// field of `size` bytes: half the margin, rounded up when the field is even
/// and the value odd.
pub open spec fn center_right(len: int, size: int) -> int {
    if size % 2 == 0 && len % 2 != 0 {
        (size - len + 1) / 2
    } else {
        (size - len) / 2
    }
}

/// `s` centred in a field of `size` bytes, or `s` itself when it is at
/// least that wide.
pub open spec fn center_spec(s: Seq<char>, size: int) -> Seq<char> {
    let len = utf8_len(s) as int;
    if size <= len {
        s
    } else {
        let right = center_right(len, size);
        spaces((size - len - right) as nat) + s + spaces(right as nat)
    }
}

fn push_spaces(out: &mut String, n: usize)
    ensures
        final(out)@ == old(out)@ + spaces(n as nat),
{
    let mut k: usize = 0;
    while k < n
        invariant
            k <= n,
            out@ == old(out)@ + spaces(k as nat),
        decreases n - k,
    {
        push_char(out, ' ');
        assert(spaces((k + 1) as nat) =~= spaces(k as nat).push(' '));
        k = k + 1;
    }
}

/// Centres `content` in a field `size` bytes wide.
pub fn center(content: &str, size: usize) -> (r: String)
    requires
        utf8_len(content@) <= usize::MAX,
    ensures
        r@ == center_spec(content@, size as int),
{
    let v = to_chars(content);
    let len = content.len();
    proof {
        lemma_utf8_len_is_encoding_len(content@);
    }
    let mut out = String::new();
    if size <= len {
        push_chars(&mut out, &v, 0, v.len());
        assert(v@.subrange(0, v.len() as int) =~= v@);
        return out;
    }
    let round_up = size % 2 == 0 && len % 2 != 0;
    let right = if round_up {
        (size - len) / 2 + (size - len) % 2
    } else {
        (size - len) / 2
    };
    let left = size - len - right;
    push_spaces(&mut out, left);
    push_chars(&mut out, &v, 0, v.len());
    push_spaces(&mut out, right);
    assert(v@.subrange(0, v.len() as int) =~= v@);
    out
}

// ---------------------------------------------------------------------------
// capfirst
// ---------------------------------------------------------------------------

/// The first character in upper case, the rest as it is.
pub open spec fn capfirst_spec(s: Seq<char>) -> Seq<char> {
    if s.len() == 0 {
        s
    } else {
        char_upper(s[0]) + s.drop_first()
    }
}

pub fn capfirst(s: &str) -> (r: String)
    ensures
        r@ == capfirst_spec(s@),
{
    let v = to_chars(s);
    let mut out = String::new();
    if v.len() == 0 {
        return out;
    }
    let first = char_to_uppercase(v[0]);
    push_chars(&mut out, &first, 0, first.len());
    push_chars(&mut out, &v, 1, v.len());
    assert(first@.subrange(0, first.len() as int) =~= first@);
    assert(v@.subrange(1, v.len() as int) =~= v@.drop_first());
    out
}


// ---------------------------------------------------------------------------
// title
// ---------------------------------------------------------------------------

/// Whether a letter that follows `prev` is put in lower case: after a letter
/// or a digit, and after an apostrophe that follows a letter put in lower
/// case (`lowered`).
pub open spec fn title_lowers(prev: Option<char>, lowered: bool) -> bool {
    match prev {
        Some(p) => if p == '\'' && lowered {
            true
        } else {
            is_ascii_digit(p) || alphabetic(p)
        },
        None => false,
    }
}

/// The title-cased text of `s` and whether its last letter was put in lower
/// case.
pub open spec fn title_run(s: Seq<char>) -> (Seq<char>, bool)
    decreases s.len(),
{
    if s.len() == 0 {
        (Seq::empty(), false)
    } else {
        let (out, lowered) = title_run(s.drop_last());
        let prev = if s.len() >= 2 {
            Some(s[s.len() - 2])
        } else {
            None
        };
        let c = s.last();
        if alphabetic(c) {
            let low = title_lowers(prev, lowered);
            (out + if low {
                char_lower(c)
            } else {
                char_upper(c)
            }, low)
        } else {
            (out.push(c), lowered)
        }
    }
}

pub open spec fn title_spec(s: Seq<char>) -> Seq<char> {
    title_run(s).0
}

/// Title case: a letter at the start of a word in upper case, the other
/// letters in lower case, as Django's `title` filter does.
pub fn title(s: &str) -> (r: String)
    ensures
        r@ == title_spec(s@),
{
    let v = to_chars(s);
    let mut out = String::new();
    let mut prev: Option<char> = None;
    let mut lowered = false;
    let mut i: usize = 0;
    assert(v@.take(0) =~= Seq::<char>::empty());
    while i < v.len()
        invariant
            i <= v.len(),
            title_run(v@.take(i as int)) == (out@, lowered),
            prev == if i >= 1 {
                Some(v@[i - 1])
            } else {
                None::<char>
            },
        decreases v.len() - i,
    {
        let c = v[i];
        if is_alphabetic(c) {
            let low = match prev {
                Some(p) => if p == '\'' && lowered {
                    true
                } else {
                    is_ascii_digit_exec(p) || is_alphabetic(p)
                },
                None => false,
            };
            let piece = if low {
                char_to_lowercase(c)
            } else {
                char_to_uppercase(c)
            };
            push_chars(&mut out, &piece, 0, piece.len());
            assert(piece@.subrange(0, piece.len() as int) =~= piece@);
            lowered = low;
        } else {
            push_char(&mut out, c);
        }
        proof {
            let t = v@.take(i + 1);
            assert(t.drop_last() =~= v@.take(i as int));
            assert(t.last() == c);
            if i >= 1 {
                assert(t[t.len() - 2] == v@[i - 1]);
            }
        }
        prev = Some(c);
        i = i + 1;
    }
    assert(v@.take(i as int) =~= s@);
    out
}

// ---------------------------------------------------------------------------
// wordcount
// ---------------------------------------------------------------------------

/// The number of words of `s`, as `split_whitespace().count()` gives it.
pub fn wordcount(s: &str) -> (r: usize)
    ensures
        r == words(s@).len(),
{
    let v = to_chars(s);
    let mut count: usize = 0;
    let mut pos: usize = 0;
    assert(v@.skip(0) =~= v@);
    loop
        invariant
            pos <= v.len(),
            v@ == s@,
            count <= pos,
            count + words(v@.skip(pos as int)).len() == words(v@).len(),
        decreases v.len() - pos,
    {
        let (start, end) = next_word(&v, pos);
        if start == v.len() {
            return count;
        }
        count = count + 1;
        pos = end;
    }
}

// ---------------------------------------------------------------------------
// yesno
// ---------------------------------------------------------------------------

/// What `yesno` is asked about: no value at all, Python's `None`, or a value
/// that is true or false.
pub enum YesnoValue {
    Missing,
    PyNone,
    Truthy(bool),
}

/// The piece of the comma-separated `bits` that stands for `value`: the
/// first for true, the second for false or a missing value, the third (or
/// else the second) for `None`.
pub open spec fn yesno_choice(bits: Seq<Seq<char>>, value: YesnoValue) -> Seq<char> {
    match value {
        YesnoValue::PyNone => if bits.len() >= 3 {
            bits[2]
        } else {
            bits[1]
        },
        YesnoValue::Truthy(true) => bits[0],
        YesnoValue::Truthy(false) => bits[1],
        YesnoValue::Missing => bits[1],
    }
}

/// Maps a value to one of the comma-separated words of `arg`. `None` when
/// `arg` has fewer than two words: the filter then hands back its input.
pub fn yesno(arg: &str, value: YesnoValue) -> (r: Option<String>)
    ensures
        split_char(arg@, ',').len() < 2 ==> r is None,
        split_char(arg@, ',').len() >= 2 ==> r is Some && r->0@ == yesno_choice(
            split_char(arg@, ','),
            value,
        ),
{
    let v = to_chars(arg);
    let bits = split_chars(&v, ',');
    if bits.len() < 2 {
        return None;
    }
    let chosen: &Vec<char> = match value {
        YesnoValue::PyNone => if bits.len() >= 3 {
            &bits[2]
        } else {
            &bits[1]
        },
        YesnoValue::Truthy(true) => &bits[0],
        YesnoValue::Truthy(false) => &bits[1],
        YesnoValue::Missing => &bits[1],
    };
    Some(from_chars(chosen))
}

// ---------------------------------------------------------------------------
// escaping for HTML
// ---------------------------------------------------------------------------

/// Text as it is written into HTML: text already safe as HTML as it is,
/// any other text with the HTML reserved characters escaped.
pub open spec fn conditional_escape_spec(content: ContentString) -> Seq<char> {
    match content {
        ContentString::HtmlSafe(s) => s@,
        _ => html_escape(content.raw()),
    }
}

/// Escapes text for HTML unless it is already safe, like Django's
/// `conditional_escape`.
pub fn conditional_escape(content: &ContentString) -> (r: String)
    ensures
        r@ == conditional_escape_spec(*content),
{
    match content {
        ContentString::HtmlSafe(s) => from_chars(&to_chars(s.as_str())),
        ContentString::String(s) => encode_quoted_attribute(s.as_str()),
        ContentString::HtmlUnsafe(s) => encode_quoted_attribute(s.as_str()),
    }
}

/// The values, each escaped unless already safe, joined with the separator,
/// escaped unless already safe: what `join` renders with autoescaping on.
pub open spec fn join_escaped_spec(values: Seq<ContentString>, separator: ContentString) -> Seq<
    char,
> {
    join(values.map_values(|v: ContentString| conditional_escape_spec(v)), conditional_escape_spec(separator))
}

pub fn join_escaped(values: &Vec<ContentString>, separator: &ContentString) -> (r: String)
    ensures
        r@ == join_escaped_spec(values@, *separator),
{
    let sep = conditional_escape(separator);
    let ghost parts = values@.map_values(|v: ContentString| conditional_escape_spec(v));
    let mut out = String::new();
    let mut i: usize = 0;
    assert(parts.take(0) =~= Seq::<Seq<char>>::empty());
    while i < values.len()
        invariant
            i <= values.len(),
            parts == values@.map_values(|v: ContentString| conditional_escape_spec(v)),
            sep@ == conditional_escape_spec(*separator),
            out@ == join(parts.take(i as int), sep@),
        decreases values.len() - i,
    {
        let piece = conditional_escape(&values[i]);
        if i > 0 {
            push_str(&mut out, sep.as_str());
        }
        push_str(&mut out, piece.as_str());
        proof {
            assert(parts.take(i + 1) =~= parts.take(i as int).push(parts[i as int]));
            lemma_join_push(parts.take(i as int), sep@, parts[i as int]);
        }
        i = i + 1;
    }
    assert(parts.take(i as int) =~= parts);
    out
}


// ---------------------------------------------------------------------------
// slugify
// ---------------------------------------------------------------------------

/// The characters stripped from both ends of a slug.
pub open spec fn is_slug_edge(c: char) -> bool {
    c == '-' || c == '_'
}

/// The slug built from `s` before its ends are stripped, and whether it
/// stands just after a dash (or at its start), where another dash is not
/// added.
pub open spec fn slug_run(s: Seq<char>) -> (Seq<char>, bool)
    decreases s.len(),
{
    if s.len() == 0 {
        (Seq::empty(), true)
    } else {
        let (out, prev_dash) = slug_run(s.drop_last());
        let c = s.last();
        if !is_ascii_char(c) {
            (out, prev_dash)
        } else if is_ascii_alnum(c) || c == '_' {
            (out.push(ascii_lower(c)), false)
        } else if (white_space(c) || c == '-') && !prev_dash {
            (out.push('-'), true)
        } else {
            (out, prev_dash)
        }
    }
}

/// The number of dashes and underscores at the start of `s`.
pub open spec fn leading_edge(s: Seq<char>) -> nat
    decreases s.len(),
{
    if s.len() > 0 && is_slug_edge(s[0]) {
        1 + leading_edge(s.drop_first())
    } else {
        0
    }
}

/// The number of dashes and underscores at the end of `s`.
pub open spec fn trailing_edge(s: Seq<char>) -> nat
    decreases s.len(),
{
    if s.len() > 0 && is_slug_edge(s.last()) {
        1 + trailing_edge(s.drop_last())
    } else {
        0
    }
}

/// `s` without the dashes and underscores at either end.
pub open spec fn strip_edges(s: Seq<char>) -> Seq<char> {
    if leading_edge(s) >= s.len() {
        Seq::empty()
    } else {
        s.subrange(leading_edge(s) as int, s.len() - trailing_edge(s))
    }
}

/// The slug of text that has already been put in NFKD form.
pub open spec fn slug_of(s: Seq<char>) -> Seq<char> {
    strip_edges(slug_run(s).0)
}

/// The slug of `s`: its NFKD form, reduced to ASCII letters, digits,
/// underscores and single dashes, in lower case, with the ends stripped.
pub open spec fn slugify_spec(s: Seq<char>) -> Seq<char> {
    slug_of(nfkd(s))
}

pub proof fn lemma_leading_edge(s: Seq<char>)
    ensures
        leading_edge(s) <= s.len(),
        leading_edge(s) < s.len() ==> !is_slug_edge(s[leading_edge(s) as int]),
        forall|k: int| 0 <= k < leading_edge(s) ==> is_slug_edge(#[trigger] s[k]),
    decreases s.len(),
{
    if s.len() > 0 && is_slug_edge(s[0]) {
        lemma_leading_edge(s.drop_first());
        assert forall|k: int| 0 <= k < leading_edge(s) implies is_slug_edge(#[trigger] s[k]) by {
            if k > 0 {
                assert(s[k] == s.drop_first()[k - 1]);
            }
        }
    }
}

pub proof fn lemma_trailing_edge(s: Seq<char>)
    ensures
        trailing_edge(s) <= s.len(),
        trailing_edge(s) < s.len() ==> !is_slug_edge(s[s.len() - trailing_edge(s) - 1]),
        forall|k: int| s.len() - trailing_edge(s) <= k < s.len() ==> is_slug_edge(#[trigger] s[k]),
    decreases s.len(),
{
    if s.len() > 0 && is_slug_edge(s.last()) {
        lemma_trailing_edge(s.drop_last());
        assert forall|k: int| s.len() - trailing_edge(s) <= k < s.len() implies is_slug_edge(
            #[trigger] s[k],
        ) by {
            if k < s.len() - 1 {
                assert(s[k] == s.drop_last()[k]);
            }
        }
    }
}

/// Strips dashes and underscores from both ends of `s`.
fn strip_edges_exec(s: &Vec<char>) -> (r: String)
    ensures
        r@ == strip_edges(s@),
{
    let mut a: usize = 0;
    assert(s@.skip(0) =~= s@);
    while a < s.len() && (s[a] == '-' || s[a] == '_')
        invariant
            a <= s.len(),
            leading_edge(s@) == a + leading_edge(s@.skip(a as int)),
        decreases s.len() - a,
    {
        assert(s@.skip(a as int).drop_first() =~= s@.skip(a + 1));
        a = a + 1;
    }
    let mut out = String::new();
    if a == s.len() {
        return out;
    }
    let mut b: usize = s.len();
    assert(s@.take(s.len() as int) =~= s@);
    while b > a && (s[b - 1] == '-' || s[b - 1] == '_')
        invariant
            a < s.len(),
            a <= b <= s.len(),
            leading_edge(s@) == a,
            trailing_edge(s@) == (s.len() - b) + trailing_edge(s@.take(b as int)),
        decreases b,
    {
        assert(s@.take(b as int).drop_last() =~= s@.take(b - 1));
        b = b - 1;
    }
    proof {
        lemma_leading_edge(s@);
        lemma_trailing_edge(s@);
        if b > a {
            assert(!is_slug_edge(s@.take(b as int).last()));
        }
        assert(trailing_edge(s@.take(b as int)) == 0);
    }
    push_chars(&mut out, s, a, b);
    out
}

/// The slug of characters already in NFKD form: `slug_of` computed.
pub fn slug_of_chars(v: &Vec<char>) -> (r: String)
    ensures
        r@ == slug_of(v@),
{
    let mut slug: Vec<char> = Vec::new();
    let mut prev_dash = true;
    let mut i: usize = 0;
    assert(v@.take(0) =~= Seq::<char>::empty());
    while i < v.len()
        invariant
            i <= v.len(),
            slug_run(v@.take(i as int)) == (slug@, prev_dash),
        decreases v.len() - i,
    {
        let c = v[i];
        if is_ascii_exec(c) {
            if is_ascii_alnum_exec(c) || c == '_' {
                slug.push(ascii_lower_exec(c));
                prev_dash = false;
            } else if (is_whitespace(c) || c == '-') && !prev_dash {
                slug.push('-');
                prev_dash = true;
            }
        }
        assert(v@.take(i + 1).drop_last() =~= v@.take(i as int));
        i = i + 1;
    }
    assert(v@.take(i as int) =~= v@);
    strip_edges_exec(&slug)
}

/// Convert spaces or repeated dashes to single dashes.
/// Remove characters that aren't ascii alphanumerics, underscores, or hyphens.
/// Convert to lowercase. Also strip leading and trailing whitespace, dashes, and underscores.
///
/// A slug is ASCII text that is its own slug, and ASCII text is not changed
/// by NFKD, so slugifying a slug gives it back.
pub fn slugify(content: &str) -> (r: String)
    ensures
        r@ == slugify_spec(content@),
        ascii_text(content@) ==> r@ == slug_of(content@),
        ascii_text(r@),
        slug_of(r@) == r@,
{
    let v = nfkd_chars(content);
    proof {
        law_slugify_idempotent(content@);
    }
    slug_of_chars(&v)
}


// ---------------------------------------------------------------------------
// wordwrap
// ---------------------------------------------------------------------------

/// What follows a word on a line, wrapped: each run of white space before
/// a further word is kept while the current line, `cur` bytes wide so far,
/// stays at most `width` bytes wide with that run and that word; otherwise
/// a line break takes the place of the run. White space after the last
/// word is kept as it is.
pub open spec fn wrap_gaps(s: Seq<char>, cur: int, width: int) -> Seq<char>
    decreases s.len(),
{
    let g = leading_ws(s) as int;
    let t = s.skip(g);
    let w = leading_word(t) as int;
    if g > s.len() || t.len() == 0 || w == 0 || w > t.len() {
        s
    } else {
        let gap = s.take(g);
        let word = t.take(w);
        let next = cur + utf8_len(gap) + utf8_len(word);
        if next <= width {
            gap + word + wrap_gaps(t.skip(w), next, width)
        } else {
            seq!['\n'] + word + wrap_gaps(t.skip(w), utf8_len(word) as int, width)
        }
    }
}

/// The number of characters of `line` up to the end of its first word:
/// its indentation and that word.
pub open spec fn first_word_end(line: Seq<char>) -> int {
    let k = leading_ws(line) as int;
    k + leading_word(line.skip(k)) as int
}

/// One line wrapped: its indentation and first word as they are, then the
/// rest as `wrap_gaps` places it. A line of white space only is kept.
pub open spec fn wrap_line(line: Seq<char>, width: int) -> Seq<char> {
    let e = first_word_end(line);
    if e > line.len() {
        line
    } else {
        line.take(e) + wrap_gaps(line.skip(e), utf8_len(line.take(e)) as int, width)
    }
}

pub open spec fn wrap_fn(width: int) -> spec_fn(Seq<char>) -> Seq<char> {
    |l: Seq<char>| wrap_line(l, width)
}

/// Each line of `text` wrapped on its own, the existing line breaks kept.
pub open spec fn wordwrap_spec(text: Seq<char>, width: int) -> Seq<char> {
    join(split_char(text, '\n').map_values(wrap_fn(width)), seq!['\n'])
}

/// The UTF-8 width of `s[from..to]`.
fn utf8_len_range(s: &Vec<char>, from: usize, to: usize) -> (r: usize)
    requires
        from <= to <= s.len(),
        utf8_len(s@) <= usize::MAX,
    ensures
        r == utf8_len(s@.subrange(from as int, to as int)),
{
    let mut acc: usize = 0;
    let mut i = from;
    proof {
        lemma_utf8_len_subrange(s@, from as int, to as int);
    }
    assert(s@.subrange(from as int, from as int) =~= Seq::<char>::empty());
    while i < to
        invariant
            from <= i <= to <= s.len(),
            acc == utf8_len(s@.subrange(from as int, i as int)),
            utf8_len(s@.subrange(from as int, to as int)) <= usize::MAX,
        decreases to - i,
    {
        proof {
            assert(s@.subrange(from as int, i + 1) =~= s@.subrange(from as int, i as int).push(
                s@[i as int],
            ));
            lemma_utf8_len_push(s@.subrange(from as int, i as int), s@[i as int]);
            lemma_utf8_len_subrange(s@.subrange(from as int, to as int), 0, (i + 1 - from) as int);
            assert(s@.subrange(from as int, to as int).take((i + 1 - from) as int) =~= s@.subrange(
                from as int,
                i + 1,
            ));
        }
        acc = acc + char_width_exec(s[i]);
        i = i + 1;
    }
    acc
}

/// Appends the rest of `line` from `pos` on, placed as `wrap_gaps` says.
fn wrap_gaps_exec(line: &Vec<char>, pos: usize, cur: usize, width: usize, out: &mut String)
    requires
        pos <= line.len(),
        utf8_len(line@) <= usize::MAX,
        cur <= utf8_len(line@.take(pos as int)),
    ensures
        final(out)@ == old(out)@ + wrap_gaps(line@.skip(pos as int), cur as int, width as int),
{
    let mut p = pos;
    let mut c = cur;
    let ghost target = old(out)@ + wrap_gaps(line@.skip(pos as int), cur as int, width as int);
    loop
        invariant_except_break
            p <= line.len(),
            utf8_len(line@) <= usize::MAX,
            c <= utf8_len(line@.take(p as int)),
            out@ + wrap_gaps(line@.skip(p as int), c as int, width as int) == target,
        ensures
            out@ == target,
        decreases line.len() - p,
    {
        let (s2, e2) = next_word(line, p);
        let ghost s = line@.skip(p as int);
        let ghost g = leading_ws(s) as int;
        if s2 == line.len() {
            assert(s.skip(g).len() == 0);
            push_chars(out, line, p, line.len());
            assert(line@.subrange(p as int, line.len() as int) =~= s);
            assert(out@ =~= target);
            break;
        }
        let ghost t = s.skip(g);
        assert(t =~= line@.skip(s2 as int));
        assert(s.take(g) =~= line@.subrange(p as int, s2 as int));
        assert(t.take(leading_word(t) as int) =~= line@.subrange(s2 as int, e2 as int));
        assert(t.skip(leading_word(t) as int) =~= line@.skip(e2 as int));
        proof {
            lemma_utf8_len_subrange(line@, p as int, s2 as int);
            lemma_utf8_len_subrange(line@, s2 as int, e2 as int);
            lemma_utf8_len_subrange(line@, 0, p as int);
            assert(line@.take(p as int) =~= line@.subrange(0, p as int));
            assert(line@.take(s2 as int) =~= line@.subrange(0, s2 as int));
            lemma_utf8_len_subrange(line@, 0, s2 as int);
            lemma_utf8_len_subrange(line@, 0, e2 as int);
            assert(line@.take(e2 as int) =~= line@.subrange(0, e2 as int));
        }
        let gl = utf8_len_range(line, p, s2);
        let wl = utf8_len_range(line, s2, e2);
        if gl + wl <= width && c <= width - (gl + wl) {
            push_chars(out, line, p, e2);
            assert(line@.subrange(p as int, e2 as int) =~= line@.subrange(p as int, s2 as int)
                + line@.subrange(s2 as int, e2 as int));
            c = c + gl + wl;
        } else {
            push_char(out, '\n');
            push_chars(out, line, s2, e2);
            c = wl;
        }
        p = e2;
        assert(out@ + wrap_gaps(line@.skip(p as int), c as int, width as int) =~= target);
    }
}

/// Appends `line` wrapped at `width` to `out`.
fn wrap_line_exec(line: &Vec<char>, width: usize, out: &mut String)
    requires
        utf8_len(line@) <= usize::MAX,
    ensures
        final(out)@ == old(out)@ + wrap_line(line@, width as int),
{
    let (start, end) = next_word(line, 0);
    assert(line@.skip(0) =~= line@);
    let ghost k = leading_ws(line@) as int;
    if start == line.len() {
        proof {
            lemma_leading_ws(line@);
            lemma_leading_word(line@.skip(k));
        }
        push_chars(out, line, 0, line.len());
        assert(line@.subrange(0, line.len() as int) =~= line@);
        assert(line@.skip(k).len() == 0);
        assert(line@.skip(first_word_end(line@)) =~= Seq::<char>::empty());
        assert(line@.take(first_word_end(line@)) =~= line@);
        assert(wrap_gaps(Seq::<char>::empty(), utf8_len(line@) as int, width as int)
            =~= Seq::<char>::empty());
        assert(old(out)@ + wrap_line(line@, width as int) =~= out@);
        return;
    }
    assert(line@.skip(k) =~= line@.skip(start as int));
    assert(first_word_end(line@) == end);
    proof {
        lemma_utf8_len_subrange(line@, 0, end as int);
        assert(line@.take(end as int) =~= line@.subrange(0, end as int));
    }
    push_chars(out, line, 0, end);
    let first = utf8_len_range(line, 0, end);
    wrap_gaps_exec(line, end, first, width, out);
}

/// A word-wrap function that preserves existing line breaks.
/// Expects that existing line breaks are posix newlines.
///
/// Preserve all white space except added line breaks consume the space on
/// which they break the line.
///
/// Don't wrap long words, thus the output text may have lines longer than
/// `width`. Widths are counted in bytes.
pub fn wordwrap(text: &str, width: usize) -> (r: String)
    requires
        utf8_len(text@) <= usize::MAX,
    ensures
        r@ == wordwrap_spec(text@, width as int),
{
    let v = to_chars(text);
    let lines = split_chars(&v, '\n');
    let ghost parts = split_char(v@, '\n').map_values(wrap_fn(width as int));
    proof {
        lemma_split_char_pieces_width(v@, '\n');
    }
    let mut out = String::new();
    let mut i: usize = 0;
    assert(parts.take(0) =~= Seq::<Seq<char>>::empty());
    while i < lines.len()
        invariant
            i <= lines.len(),
            v@ == text@,
            lines@.len() == split_char(v@, '\n').len(),
            forall|k: int| 0 <= k < lines@.len() ==> #[trigger] lines@[k]@ == split_char(v@, '\n')[k],
            forall|k: int|
                0 <= k < split_char(v@, '\n').len() ==> utf8_len(#[trigger] split_char(v@, '\n')[k])
                    <= utf8_len(v@),
            utf8_len(text@) <= usize::MAX,
            parts == split_char(v@, '\n').map_values(wrap_fn(width as int)),
            out@ == join(parts.take(i as int), seq!['\n']),
        decreases lines.len() - i,
    {
        if i > 0 {
            push_char(&mut out, '\n');
        }
        assert(lines@[i as int]@ == split_char(v@, '\n')[i as int]);
        wrap_line_exec(&lines[i], width, &mut out);
        proof {
            assert(parts[i as int] == wrap_line(lines@[i as int]@, width as int));
            assert(parts.take(i + 1) =~= parts.take(i as int).push(parts[i as int]));
            lemma_join_push(parts.take(i as int), seq!['\n'], parts[i as int]);
        }
        i = i + 1;
    }
    assert(parts.take(i as int) =~= parts);
    out
}

} // verus!
