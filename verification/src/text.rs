//! Character classes, UTF-8 widths, splitting and joining of character
//! sequences: the vocabulary that the filter contracts are written in.
use vstd::prelude::*;

verus! {

broadcast use vstd::string::group_string_axioms;

// ---------------------------------------------------------------------------
// Character classes
// ---------------------------------------------------------------------------

/// ASCII characters: code points below 128.
pub open spec fn is_ascii_char(c: char) -> bool {
    c <= '\x7f'
}

/// Every character of `s` is ASCII.
pub open spec fn ascii_text(s: Seq<char>) -> bool {
    forall|k: int| 0 <= k < s.len() ==> is_ascii_char(#[trigger] s[k])
}

pub open spec fn is_ascii_digit(c: char) -> bool {
    '0' <= c && c <= '9'
}

pub open spec fn is_ascii_upper(c: char) -> bool {
    'A' <= c && c <= 'Z'
}

pub open spec fn is_ascii_lower(c: char) -> bool {
    'a' <= c && c <= 'z'
}

pub open spec fn is_ascii_alnum(c: char) -> bool {
    is_ascii_digit(c) || is_ascii_upper(c) || is_ascii_lower(c)
}

/// The lower-case form of an ASCII upper-case letter; every other character
/// is left as it is.
pub open spec fn ascii_lower(c: char) -> char {
    if is_ascii_upper(c) {
        ((c as u32) + 32) as char
    } else {
        c
    }
}

/// The characters with the Unicode `White_Space` property (PropList.txt),
/// which is what `char::is_whitespace` tests.
pub open spec fn white_space(c: char) -> bool {
    ||| ('\t' <= c && c <= '\r')
    ||| c == ' '
    ||| c == '\u{85}'
    ||| c == '\u{A0}'
    ||| c == '\u{1680}'
    ||| ('\u{2000}' <= c && c <= '\u{200A}')
    ||| c == '\u{2028}'
    ||| c == '\u{2029}'
    ||| c == '\u{202F}'
    ||| c == '\u{205F}'
    ||| c == '\u{3000}'
}

pub fn is_ascii_alnum_exec(c: char) -> (r: bool)
    ensures
        r == is_ascii_alnum(c),
{
    ('0' <= c && c <= '9') || ('A' <= c && c <= 'Z') || ('a' <= c && c <= 'z')
}

pub fn is_ascii_digit_exec(c: char) -> (r: bool)
    ensures
        r == is_ascii_digit(c),
{
    '0' <= c && c <= '9'
}

pub fn is_ascii_exec(c: char) -> (r: bool)
    ensures
        r == is_ascii_char(c),
{
    c <= '\x7f'
}

pub fn ascii_lower_exec(c: char) -> (r: char)
    ensures
        r == ascii_lower(c),
{
    if 'A' <= c && c <= 'Z' {
        let u: u32 = c as u32;
        let l: u8 = (u + 32) as u8;
        assert(l as u32 == u + 32);
        let r: char = l as char;
        assert(r == ((c as u32) + 32) as char);
        r
    } else {
        c
    }
}

/// `char::is_whitespace`: the Unicode `White_Space` property.
pub fn is_whitespace(c: char) -> (r: bool)
    ensures
        r == white_space(c),
{
    ('\t' <= c && c <= '\r') || c == ' ' || c == '\u{85}' || c == '\u{A0}' || c == '\u{1680}'
        || ('\u{2000}' <= c && c <= '\u{200A}') || c == '\u{2028}' || c == '\u{2029}' || c
        == '\u{202F}' || c == '\u{205F}' || c == '\u{3000}'
}

// ---------------------------------------------------------------------------
// UTF-8 widths
// ---------------------------------------------------------------------------

/// The number of bytes of the UTF-8 encoding of `c`.
pub open spec fn char_width(c: char) -> nat {
    if c <= '\x7f' {
        1
    } else if c <= '\u{7FF}' {
        2
    } else if c <= '\u{FFFF}' {
        3
    } else {
        4
    }
}

/// The number of bytes of the UTF-8 encoding of `s`: what `str::len` returns.
pub open spec fn utf8_len(s: Seq<char>) -> nat
    decreases s.len(),
{
    if s.len() == 0 {
        0
    } else {
        utf8_len(s.drop_last()) + char_width(s.last())
    }
}

proof fn lemma_char_width_encoding(c: char)
    ensures
        vstd::utf8::encode_scalar(c as u32).len() == char_width(c),
{
    vstd::utf8::char_is_scalar(c);
    lemma_char_code_le(c, '\x7f');
    lemma_char_code_le(c, '\u{7FF}');
    lemma_char_code_le(c, '\u{FFFF}');
}

proof fn lemma_char_code_le(c: char, d: char)
    ensures
        (c <= d) == ((c as u32) <= (d as u32)),
{
}

/// `utf8_len` is the length of the UTF-8 encoding that vstd specifies,
/// which is what `str::len` returns.
pub proof fn lemma_utf8_len_is_encoding_len(s: Seq<char>)
    ensures
        utf8_len(s) == vstd::utf8::encode_utf8(s).len(),
    decreases s.len(),
{
    if s.len() > 0 {
        lemma_utf8_len_is_encoding_len(s.drop_first());
        lemma_char_width_encoding(s[0]);
        lemma_utf8_len_concat(seq![s[0]], s.drop_first());
        assert(seq![s[0]] + s.drop_first() =~= s);
        lemma_utf8_len_push(Seq::<char>::empty(), s[0]);
        assert(Seq::<char>::empty().push(s[0]) =~= seq![s[0]]);
        assert(vstd::utf8::encode_utf8(s) == vstd::utf8::encode_scalar(s[0] as u32)
            + vstd::utf8::encode_utf8(s.drop_first()));
    }
}

pub fn char_width_exec(c: char) -> (r: usize)
    ensures
        r == char_width(c),
{
    if c <= '\x7f' {
        1
    } else if c <= '\u{7FF}' {
        2
    } else if c <= '\u{FFFF}' {
        3
    } else {
        4
    }
}

pub proof fn lemma_utf8_len_push(s: Seq<char>, c: char)
    ensures
        utf8_len(s.push(c)) == utf8_len(s) + char_width(c),
{
    assert(s.push(c).drop_last() =~= s);
}

pub proof fn lemma_utf8_len_concat(a: Seq<char>, b: Seq<char>)
    ensures
        utf8_len(a + b) == utf8_len(a) + utf8_len(b),
    decreases b.len(),
{
    if b.len() == 0 {
        assert(a + b =~= a);
    } else {
        lemma_utf8_len_concat(a, b.drop_last());
        assert((a + b).drop_last() =~= a + b.drop_last());
    }
}

/// A piece of a sequence is never wider than the sequence, and the part
/// before it together with it is not either.
pub proof fn lemma_utf8_len_subrange(s: Seq<char>, i: int, j: int)
    requires
        0 <= i <= j <= s.len(),
    ensures
        utf8_len(s.take(i)) + utf8_len(s.subrange(i, j)) == utf8_len(s.take(j)),
        utf8_len(s.take(j)) <= utf8_len(s),
        utf8_len(s.subrange(i, j)) <= utf8_len(s),
{
    lemma_utf8_len_concat(s.take(i), s.subrange(i, j));
    assert(s.take(i) + s.subrange(i, j) =~= s.take(j));
    lemma_utf8_len_concat(s.take(j), s.skip(j));
    assert(s.take(j) + s.skip(j) =~= s);
}

pub proof fn lemma_utf8_len_at_least_len(s: Seq<char>)
    ensures
        utf8_len(s) >= s.len(),
    decreases s.len(),
{
    if s.len() > 0 {
        lemma_utf8_len_at_least_len(s.drop_last());
    }
}

// ---------------------------------------------------------------------------
// Mapping every character to a piece of text
// ---------------------------------------------------------------------------

/// The concatenation of `f(c)` over the characters `c` of `s`, in order.
pub open spec fn flat_map(s: Seq<char>, f: spec_fn(char) -> Seq<char>) -> Seq<char>
    decreases s.len(),
{
    if s.len() == 0 {
        Seq::empty()
    } else {
        flat_map(s.drop_last(), f) + f(s.last())
    }
}

pub proof fn lemma_flat_map_push(s: Seq<char>, c: char, f: spec_fn(char) -> Seq<char>)
    ensures
        flat_map(s.push(c), f) == flat_map(s, f) + f(c),
{
    assert(s.push(c).drop_last() =~= s);
}

/// When every piece `f(c)` consists of characters satisfying `p`, so does
/// the whole of `flat_map(s, f)`.
pub proof fn lemma_flat_map_all(
    s: Seq<char>,
    f: spec_fn(char) -> Seq<char>,
    p: spec_fn(char) -> bool,
)
    requires
        forall|c: char, k: int| 0 <= k < f(c).len() ==> #[trigger] p(f(c)[k]),
    ensures
        forall|k: int| 0 <= k < flat_map(s, f).len() ==> #[trigger] p(flat_map(s, f)[k]),
    decreases s.len(),
{
    if s.len() > 0 {
        lemma_flat_map_all(s.drop_last(), f, p);
        let a = flat_map(s.drop_last(), f);
        let b = f(s.last());
        assert forall|k: int| 0 <= k < flat_map(s, f).len() implies #[trigger] p(
            flat_map(s, f)[k],
        ) by {
            if k < a.len() {
                assert(flat_map(s, f)[k] == a[k]);
            } else {
                assert(flat_map(s, f)[k] == b[k - a.len()]);
            }
        }
    }
}

/// When every character maps to itself, `flat_map` gives back its input.
pub proof fn lemma_flat_map_identity(s: Seq<char>, f: spec_fn(char) -> Seq<char>)
    requires
        forall|k: int| 0 <= k < s.len() ==> f(#[trigger] s[k]) == seq![s[k]],
    ensures
        flat_map(s, f) == s,
    decreases s.len(),
{
    if s.len() > 0 {
        assert forall|k: int| 0 <= k < s.drop_last().len() implies f(
            #[trigger] s.drop_last()[k],
        ) == seq![s.drop_last()[k]] by {
            assert(s.drop_last()[k] == s[k]);
        }
        lemma_flat_map_identity(s.drop_last(), f);
        assert(f(s[s.len() - 1]) == seq![s[s.len() - 1]]);
        assert(s.drop_last() + seq![s.last()] =~= s);
    }
}

// ---------------------------------------------------------------------------
// Splitting at a separator and joining with one
// ---------------------------------------------------------------------------

/// The index of the first `c` in `s`, or `s.len()` when there is none.
pub open spec fn find_char(s: Seq<char>, c: char) -> nat
    decreases s.len(),
{
    if s.len() == 0 {
        0
    } else if s[0] == c {
        0
    } else {
        1 + find_char(s.drop_first(), c)
    }
}

pub proof fn lemma_find_char(s: Seq<char>, c: char)
    ensures
        find_char(s, c) <= s.len(),
        find_char(s, c) < s.len() ==> s[find_char(s, c) as int] == c,
        forall|k: int| 0 <= k < find_char(s, c) ==> s[k] != c,
    decreases s.len(),
{
    if s.len() > 0 && s[0] != c {
        lemma_find_char(s.drop_first(), c);
        assert forall|k: int| 0 <= k < find_char(s, c) implies s[k] != c by {
            if k > 0 {
                assert(s[k] == s.drop_first()[k - 1]);
            }
        }
    }
}

/// `find_char` is the position of the first occurrence.
pub proof fn lemma_find_char_is(s: Seq<char>, c: char, j: int)
    requires
        0 <= j <= s.len(),
        j < s.len() ==> s[j] == c,
        forall|k: int| 0 <= k < j ==> s[k] != c,
    ensures
        find_char(s, c) == j,
    decreases s.len(),
{
    if s.len() > 0 && j > 0 {
        assert(s[0] != c);
        assert forall|k: int| 0 <= k < j - 1 implies s.drop_first()[k] != c by {
            assert(s.drop_first()[k] == s[k + 1]);
        }
        lemma_find_char_is(s.drop_first(), c, j - 1);
    }
}

/// The pieces of `s` between occurrences of `c`, as `str::split(c)` yields
/// them: there is always at least one piece, and `n` separators give
/// `n + 1` pieces.
pub open spec fn split_char(s: Seq<char>, c: char) -> Seq<Seq<char>>
    decreases s.len(),
{
    let i = find_char(s, c) as int;
    if i >= s.len() {
        seq![s]
    } else {
        seq![s.take(i)] + split_char(s.skip(i + 1), c)
    }
}

pub proof fn lemma_split_char_nonempty(s: Seq<char>, c: char)
    ensures
        split_char(s, c).len() >= 1,
    decreases s.len(),
{
    let i = find_char(s, c) as int;
    if i < s.len() {
        lemma_split_char_nonempty(s.skip(i + 1), c);
    }
}

/// Every piece of a split is no wider, in UTF-8 bytes, than the whole.
pub proof fn lemma_split_char_pieces_width(s: Seq<char>, c: char)
    ensures
        forall|k: int|
            0 <= k < split_char(s, c).len() ==> utf8_len(#[trigger] split_char(s, c)[k])
                <= utf8_len(s),
    decreases s.len(),
{
    let i = find_char(s, c) as int;
    lemma_find_char(s, c);
    if i < s.len() {
        lemma_split_char_pieces_width(s.skip(i + 1), c);
        lemma_utf8_len_subrange(s, 0, i as int);
        assert(s.take(i) =~= s.subrange(0, i as int));
        lemma_utf8_len_subrange(s, i + 1, s.len() as int);
        assert(s.skip(i + 1) =~= s.subrange(i + 1, s.len() as int));
        assert forall|k: int|
            0 <= k < split_char(s, c).len() implies utf8_len(#[trigger] split_char(s, c)[k])
            <= utf8_len(s) by {
            if k > 0 {
                assert(split_char(s, c)[k] == split_char(s.skip(i + 1), c)[k - 1]);
            }
        }
    }
}

/// The pieces joined with `sep` between consecutive ones.
pub open spec fn join(parts: Seq<Seq<char>>, sep: Seq<char>) -> Seq<char>
    decreases parts.len(),
{
    if parts.len() == 0 {
        Seq::empty()
    } else if parts.len() == 1 {
        parts[0]
    } else {
        join(parts.drop_last(), sep) + sep + parts.last()
    }
}

pub proof fn lemma_join_push(parts: Seq<Seq<char>>, sep: Seq<char>, p: Seq<char>)
    ensures
        join(parts.push(p), sep) == if parts.len() == 0 {
            p
        } else {
            join(parts, sep) + sep + p
        },
{
    assert(parts.push(p).drop_last() =~= parts);
}

/// Splitting at `c` and joining the pieces with `c` gives back the input.
pub proof fn lemma_join_split(s: Seq<char>, c: char)
    ensures
        join(split_char(s, c), seq![c]) == s,
    decreases s.len(),
{
    let i = find_char(s, c) as int;
    lemma_find_char(s, c);
    if i < s.len() {
        let rest = split_char(s.skip(i + 1), c);
        lemma_join_split(s.skip(i + 1), c);
        lemma_split_char_nonempty(s.skip(i + 1), c);
        lemma_join_prepend(s.take(i), rest, seq![c]);
        assert(s.take(i) + seq![c] + s.skip(i + 1) =~= s);
    }
}

/// Joining `p` followed by `rest`.
pub proof fn lemma_join_prepend(p: Seq<char>, rest: Seq<Seq<char>>, sep: Seq<char>)
    requires
        rest.len() >= 1,
    ensures
        join(seq![p] + rest, sep) == p + sep + join(rest, sep),
    decreases rest.len(),
{
    if rest.len() == 1 {
        assert((seq![p] + rest).drop_last() =~= seq![p]);
        assert(join(seq![p] + rest, sep) == join(seq![p], sep) + sep + rest[0]);
    } else {
        lemma_join_prepend(p, rest.drop_last(), sep);
        assert((seq![p] + rest).drop_last() =~= seq![p] + rest.drop_last());
        assert(join(seq![p] + rest, sep) =~= p + sep + join(rest.drop_last(), sep) + sep
            + rest.last());
    }
}

// ---------------------------------------------------------------------------
// Words: maximal runs of characters that are not white space
// ---------------------------------------------------------------------------

/// The number of white-space characters at the start of `s`.
pub open spec fn leading_ws(s: Seq<char>) -> nat
    decreases s.len(),
{
    if s.len() > 0 && white_space(s[0]) {
        1 + leading_ws(s.drop_first())
    } else {
        0
    }
}

/// The number of characters at the start of `s` that are not white space.
pub open spec fn leading_word(s: Seq<char>) -> nat
    decreases s.len(),
{
    if s.len() > 0 && !white_space(s[0]) {
        1 + leading_word(s.drop_first())
    } else {
        0
    }
}

pub proof fn lemma_leading_ws(s: Seq<char>)
    ensures
        leading_ws(s) <= s.len(),
        leading_ws(s) < s.len() ==> !white_space(s[leading_ws(s) as int]),
        forall|k: int| 0 <= k < leading_ws(s) ==> white_space(#[trigger] s[k]),
    decreases s.len(),
{
    if s.len() > 0 && white_space(s[0]) {
        lemma_leading_ws(s.drop_first());
        assert forall|k: int| 0 <= k < leading_ws(s) implies white_space(#[trigger] s[k]) by {
            if k > 0 {
                assert(s[k] == s.drop_first()[k - 1]);
            }
        }
    }
}

pub proof fn lemma_leading_word(s: Seq<char>)
    ensures
        leading_word(s) <= s.len(),
        s.len() > 0 && !white_space(s[0]) ==> leading_word(s) >= 1,
        leading_word(s) < s.len() ==> white_space(s[leading_word(s) as int]),
        forall|k: int| 0 <= k < leading_word(s) ==> !white_space(#[trigger] s[k]),
    decreases s.len(),
{
    if s.len() > 0 && !white_space(s[0]) {
        lemma_leading_word(s.drop_first());
        assert forall|k: int| 0 <= k < leading_word(s) implies !white_space(#[trigger] s[k]) by {
            if k > 0 {
                assert(s[k] == s.drop_first()[k - 1]);
            }
        }
    }
}

/// The words of `s` in order, as `str::split_whitespace` yields them.
pub open spec fn words(s: Seq<char>) -> Seq<Seq<char>>
    decreases s.len(),
{
    let t = s.skip(leading_ws(s) as int);
    if leading_ws(s) > s.len() || t.len() == 0 {
        Seq::empty()
    } else {
        let w = leading_word(t);
        if w == 0 || w > t.len() {
            Seq::empty()
        } else {
            seq![t.take(w as int)] + words(t.skip(w as int))
        }
    }
}


// ---------------------------------------------------------------------------
// Moving between strings and character vectors
// ---------------------------------------------------------------------------

/// Appends one character to a string (`String::push`).
#[verifier::external_body]
pub fn push_char(s: &mut String, c: char)
    ensures
        final(s)@ == old(s)@.push(c),
{
    s.push(c);
}

/// The characters of a string slice, in order.
pub fn to_chars(s: &str) -> (r: Vec<char>)
    ensures
        r@ == s@,
{
    let mut r: Vec<char> = Vec::new();
    for c in it: s.chars()
        invariant
            r@ == it.seq().take(it.index() as int),
    {
        r.push(c);
    }
    r
}

/// Appends the characters `s[from..to]` to `out`.
pub fn push_chars(out: &mut String, s: &Vec<char>, from: usize, to: usize)
    requires
        from <= to <= s.len(),
    ensures
        final(out)@ == old(out)@ + s@.subrange(from as int, to as int),
{
    let mut i = from;
    while i < to
        invariant
            from <= i <= to <= s.len(),
            out@ == old(out)@ + s@.subrange(from as int, i as int),
        decreases to - i,
    {
        push_char(out, s[i]);
        assert(s@.subrange(from as int, i + 1) =~= s@.subrange(from as int, i as int).push(s@[i as int]));
        i = i + 1;
    }
}

/// A string holding the characters of `s`.
pub fn from_chars(s: &Vec<char>) -> (r: String)
    ensures
        r@ == s@,
{
    let mut r = String::new();
    push_chars(&mut r, s, 0, s.len());
    assert(s@.subrange(0, s@.len() as int) =~= s@);
    r
}

/// Appends a whole string slice to `out`.
pub fn push_str(out: &mut String, s: &str)
    ensures
        final(out)@ == old(out)@ + s@,
{
    let v = to_chars(s);
    push_chars(out, &v, 0, v.len());
    assert(v@.subrange(0, v@.len() as int) =~= s@);
}


/// The pieces of `s` between occurrences of `sep` (`str::split`).
pub fn split_chars(s: &Vec<char>, sep: char) -> (r: Vec<Vec<char>>)
    ensures
        r@.len() == split_char(s@, sep).len(),
        forall|k: int| 0 <= k < r@.len() ==> #[trigger] r@[k]@ == split_char(s@, sep)[k],
{
    let mut r: Vec<Vec<char>> = Vec::new();
    let mut cur: Vec<char> = Vec::new();
    let mut start: usize = 0;
    let mut i: usize = 0;
    let ghost mut done: Seq<Seq<char>> = Seq::empty();
    assert(s@.skip(0) =~= s@);
    assert(done + split_char(s@, sep) =~= split_char(s@, sep));
    while i < s.len()
        invariant
            start <= i <= s.len(),
            cur@ == s@.subrange(start as int, i as int),
            forall|k: int| start <= k < i ==> s@[k] != sep,
            r@.len() == done.len(),
            forall|k: int| 0 <= k < r@.len() ==> #[trigger] r@[k]@ == done[k],
            split_char(s@, sep) == done + split_char(s@.skip(start as int), sep),
        decreases s.len() - i,
    {
        let ghost t = s@.skip(start as int);
        if s[i] == sep {
            proof {
                assert forall|k: int| 0 <= k < i - start implies t[k] != sep by {
                    assert(t[k] == s@[start + k]);
                }
                lemma_find_char_is(t, sep, i - start);
                assert(t.take(i - start) =~= cur@);
                assert(t.skip(i - start + 1) =~= s@.skip(i + 1));
                assert(split_char(t, sep) == seq![cur@] + split_char(s@.skip(i + 1), sep));
                done = done.push(cur@);
                assert(split_char(s@, sep) =~= done + split_char(s@.skip(i + 1), sep));
            }
            r.push(cur);
            cur = Vec::new();
            start = i + 1;
            assert(cur@ =~= s@.subrange(start as int, start as int));
        } else {
            cur.push(s[i]);
            assert(cur@ =~= s@.subrange(start as int, i + 1));
        }
        i = i + 1;
    }
    proof {
        let t = s@.skip(start as int);
        assert forall|k: int| 0 <= k < t.len() implies t[k] != sep by {
            assert(t[k] == s@[start + k]);
        }
        lemma_find_char_is(t, sep, t.len() as int);
        assert(t =~= cur@);
        done = done.push(cur@);
    }
    r.push(cur);
    assert(split_char(s@, sep) =~= done);
    r
}

/// Where the next word of `s` at or after `pos` starts and ends.
pub fn next_word(s: &Vec<char>, pos: usize) -> (r: (usize, usize))
    requires
        pos <= s.len(),
    ensures
        pos <= r.0 <= r.1 <= s.len(),
        r.0 == s.len() ==> words(s@.skip(pos as int)) == Seq::<Seq<char>>::empty(),
        r.0 < s.len() ==> r.0 < r.1 && words(s@.skip(pos as int)) == seq![
            s@.subrange(r.0 as int, r.1 as int),
        ] + words(s@.skip(r.1 as int)),
        r.0 - pos == leading_ws(s@.skip(pos as int)),
        r.0 < s.len() ==> r.1 - r.0 == leading_word(s@.skip(r.0 as int)),
{
    let ghost u = s@.skip(pos as int);
    let mut i = pos;
    while i < s.len() && is_whitespace(s[i])
        invariant
            pos <= i <= s.len(),
            u == s@.skip(pos as int),
            leading_ws(u) == (i - pos) + leading_ws(s@.skip(i as int)),
        decreases s.len() - i,
    {
        assert(s@.skip(i as int).drop_first() =~= s@.skip(i + 1));
        i = i + 1;
    }
    let start = i;
    proof {
        lemma_leading_ws(u);
        assert(leading_ws(s@.skip(i as int)) == 0);
        assert(u.skip(leading_ws(u) as int) =~= s@.skip(start as int));
    }
    if start == s.len() {
        return (start, start);
    }
    let ghost t = s@.skip(start as int);
    while i < s.len() && !is_whitespace(s[i])
        invariant
            start <= i <= s.len(),
            t == s@.skip(start as int),
            leading_word(t) == (i - start) + leading_word(s@.skip(i as int)),
        decreases s.len() - i,
    {
        assert(s@.skip(i as int).drop_first() =~= s@.skip(i + 1));
        i = i + 1;
    }
    proof {
        lemma_leading_word(t);
        assert(leading_word(s@.skip(i as int)) == 0);
        assert(t.take(leading_word(t) as int) =~= s@.subrange(start as int, i as int));
        assert(t.skip(leading_word(t) as int) =~= s@.skip(i as int));
    }
    (start, i)
}


/// Every word is non-empty and holds no white space.
pub proof fn lemma_words_shape(s: Seq<char>)
    ensures
        forall|k: int|
            0 <= k < words(s).len() ==> (#[trigger] words(s)[k]).len() > 0 && forall|m: int|
                0 <= m < words(s)[k].len() ==> !white_space(words(s)[k][m]),
    decreases s.len(),
{
    lemma_leading_ws(s);
    let t = s.skip(leading_ws(s) as int);
    if t.len() > 0 {
        lemma_leading_word(t);
        let w = leading_word(t);
        if w > 0 && w <= t.len() {
            lemma_words_shape(t.skip(w as int));
            assert forall|k: int|
                0 <= k < words(s).len() implies (#[trigger] words(s)[k]).len() > 0 && forall|m: int|
                0 <= m < words(s)[k].len() ==> !white_space(words(s)[k][m]) by {
                if k == 0 {
                    assert(words(s)[0] == t.take(w as int));
                    assert forall|m: int| 0 <= m < words(s)[k].len() implies !white_space(
                        words(s)[k][m],
                    ) by {
                        assert(t.take(w as int)[m] == t[m]);
                    }
                } else {
                    assert(words(s)[k] == words(t.skip(w as int))[k - 1]);
                }
            }
        }
    }
}

/// White space at the start does not change the words.
pub proof fn lemma_words_skip_ws(p: Seq<char>, s: Seq<char>)
    requires
        forall|k: int| 0 <= k < p.len() ==> white_space(#[trigger] p[k]),
    ensures
        words(p + s) == words(s),
    decreases p.len(),
{
    if p.len() > 0 {
        let q = p + s;
        assert(q.drop_first() =~= p.drop_first() + s);
        assert forall|k: int| 0 <= k < p.drop_first().len() implies white_space(
            #[trigger] p.drop_first()[k],
        ) by {
            assert(p.drop_first()[k] == p[k + 1]);
        }
        lemma_words_skip_ws(p.drop_first(), s);
        assert(q[0] == p[0]);
        assert(leading_ws(q) == 1 + leading_ws(q.drop_first()));
        lemma_leading_ws(q.drop_first());
        assert(q.skip(leading_ws(q) as int) =~= q.drop_first().skip(leading_ws(q.drop_first()) as int));
    }
}

/// The number of leading non-white-space characters of `w + s`, when `w`
/// has no white space and `s` is empty or starts with white space.
proof fn lemma_leading_word_concat(w: Seq<char>, s: Seq<char>)
    requires
        forall|k: int| 0 <= k < w.len() ==> !white_space(#[trigger] w[k]),
        s.len() > 0 ==> white_space(s[0]),
    ensures
        leading_word(w + s) == w.len(),
    decreases w.len(),
{
    let q = w + s;
    if w.len() > 0 {
        assert(q.drop_first() =~= w.drop_first() + s);
        assert forall|k: int| 0 <= k < w.drop_first().len() implies !white_space(
            #[trigger] w.drop_first()[k],
        ) by {
            assert(w.drop_first()[k] == w[k + 1]);
        }
        lemma_leading_word_concat(w.drop_first(), s);
        assert(q[0] == w[0]);
    } else {
        assert(q =~= s);
    }
}

/// A word followed by text that is empty or starts with white space.
pub proof fn lemma_words_word_first(w: Seq<char>, s: Seq<char>)
    requires
        w.len() > 0,
        forall|k: int| 0 <= k < w.len() ==> !white_space(#[trigger] w[k]),
        s.len() > 0 ==> white_space(s[0]),
    ensures
        words(w + s) == seq![w] + words(s),
{
    let q = w + s;
    assert(q[0] == w[0]);
    assert(leading_ws(q) == 0);
    assert(q.skip(0) =~= q);
    lemma_leading_word_concat(w, s);
    assert(q.take(w.len() as int) =~= w);
    assert(q.skip(w.len() as int) =~= s);
}

/// The words of two texts with a white-space character between them.
pub proof fn lemma_words_concat(a: Seq<char>, c: char, b: Seq<char>)
    requires
        white_space(c),
    ensures
        words(a + seq![c] + b) == words(a) + words(b),
    decreases a.len(),
{
    lemma_leading_ws(a);
    let lw = leading_ws(a) as int;
    let t = a.skip(lw);
    assert(a =~= a.take(lw) + t);
    assert forall|k: int| 0 <= k < a.take(lw).len() implies white_space(#[trigger] a.take(lw)[k]) by {
        assert(a.take(lw)[k] == a[k]);
    }
    if t.len() == 0 {
        // `a` is all white space.
        assert(words(a) == Seq::<Seq<char>>::empty());
        let p = a + seq![c];
        assert forall|k: int| 0 <= k < p.len() implies white_space(#[trigger] p[k]) by {
            if k < a.len() {
                assert(p[k] == a[k]);
            }
        }
        lemma_words_skip_ws(p, b);
        assert(a + seq![c] + b =~= p + b);
        assert(words(a) + words(b) =~= words(b));
    } else {
        lemma_leading_word(t);
        let w = leading_word(t) as int;
        let word = t.take(w);
        let rest = t.skip(w);
        assert(words(a) == seq![word] + words(rest));
        lemma_words_concat(rest, c, b);
        let tail = rest + seq![c] + b;
        assert forall|k: int| 0 <= k < word.len() implies !white_space(#[trigger] word[k]) by {
            assert(word[k] == t[k]);
        }
        if rest.len() > 0 {
            assert(tail[0] == rest[0]);
            assert(rest[0] == t[w]);
        } else {
            assert(tail[0] == c);
        }
        lemma_words_word_first(word, tail);
        assert(a + seq![c] + b =~= a.take(lw) + (word + tail));
        lemma_words_skip_ws(a.take(lw), word + tail);
        assert(words(a + seq![c] + b) =~= seq![word] + (words(rest) + words(b)));
        assert(words(a) + words(b) =~= seq![word] + (words(rest) + words(b)));
    }
}


/// No piece of a split holds the separator.
pub proof fn lemma_split_char_pieces_free(s: Seq<char>, c: char)
    ensures
        forall|k: int, m: int|
            0 <= k < split_char(s, c).len() && 0 <= m < split_char(s, c)[k].len() ==> #[trigger] split_char(s, c)[k][m] != c,
    decreases s.len(),
{
    let i = find_char(s, c) as int;
    lemma_find_char(s, c);
    if i < s.len() {
        lemma_split_char_pieces_free(s.skip(i + 1), c);
        assert forall|k: int, m: int|
            0 <= k < split_char(s, c).len() && 0 <= m < split_char(s, c)[k].len() implies #[trigger] split_char(s, c)[k][m] != c by {
            if k > 0 {
                assert(split_char(s, c)[k] == split_char(s.skip(i + 1), c)[k - 1]);
            } else {
                assert(split_char(s, c)[0][m] == s[m]);
            }
        }
    }
}

/// Text without the separator is a single piece.
pub proof fn lemma_split_char_free(s: Seq<char>, c: char)
    requires
        forall|m: int| 0 <= m < s.len() ==> s[m] != c,
    ensures
        split_char(s, c) == seq![s],
{
    lemma_find_char_is(s, c, s.len() as int);
}

/// Splitting `a`, the separator, then `b`: the pieces of `a` followed by
/// those of `b`.
pub proof fn lemma_split_char_concat(a: Seq<char>, c: char, b: Seq<char>)
    ensures
        split_char(a + seq![c] + b, c) == split_char(a, c) + split_char(b, c),
    decreases a.len(),
{
    let s = a + seq![c] + b;
    let i = find_char(a, c) as int;
    lemma_find_char(a, c);
    if i < a.len() {
        assert forall|k: int| 0 <= k < i implies s[k] != c by {
            assert(s[k] == a[k]);
        }
        assert(s[i] == a[i]);
        lemma_find_char_is(s, c, i);
        assert(s.take(i) =~= a.take(i));
        assert(s.skip(i + 1) =~= a.skip(i + 1) + seq![c] + b);
        lemma_split_char_concat(a.skip(i + 1), c, b);
        assert(split_char(s, c) =~= seq![a.take(i)] + (split_char(a.skip(i + 1), c) + split_char(b, c)));
    } else {
        assert forall|k: int| 0 <= k < a.len() implies s[k] != c by {
            assert(s[k] == a[k]);
        }
        assert(s[a.len() as int] == c);
        lemma_find_char_is(s, c, a.len() as int);
        assert(s.take(a.len() as int) =~= a);
        assert(s.skip(a.len() as int + 1) =~= b);
        assert(split_char(s, c) =~= seq![a] + split_char(b, c));
    }
}

} // verus!
