//! Properties that hold of the filters for every input.
use vstd::prelude::*;
use crate::render::filters::{
        addslashes_spec, center_right, center_spec, escapejs_spec, hex_digit, is_slug_edge, js_char,
    js_fn, js_special, leading_edge, lemma_leading_edge, lemma_trailing_edge, remove_all,
    slash_char, slash_fn, slug_of, slug_run, spaces, strip_edges, trailing_edge, unicode_escape,
};
use crate::text::{
    ascii_lower, flat_map, is_ascii_alnum, is_ascii_char, is_ascii_digit, is_ascii_lower,
    lemma_flat_map_all, lemma_flat_map_identity, lemma_utf8_len_concat, utf8_len, white_space,
    join, leading_ws, lemma_join_split, lemma_leading_ws, lemma_utf8_len_at_least_len,
    lemma_words_concat, lemma_words_shape, lemma_words_skip_ws, lemma_words_word_first,
    split_char, words, char_width, lemma_split_char_concat, lemma_split_char_free,
    lemma_split_char_pieces_free, lemma_utf8_len_push,
};
use crate::render::filters::{first_word_end, wordwrap_spec, wrap_fn, wrap_gaps, wrap_line};
use crate::text::{leading_word, lemma_leading_word, lemma_split_char_nonempty};
use crate::unicode::{html_escape, html_escape_char, nfkd};
use crate::render::filters::slugify_spec;
use crate::text::ascii_text;
use crate::render::filters::{capfirst_spec, title_run, title_spec};
use crate::unicode::{alphabetic, char_lower, char_upper};
use crate::render::types::{Content, ContentString};
use crate::integer::Integer;

verus! {

// ---------------------------------------------------------------------------
// escapejs
// ---------------------------------------------------------------------------

proof fn lemma_hex_digit_plain(d: nat)
    requires
        d < 16,
    ensures
        !js_special(hex_digit(d)),
{
}

/// `escapejs` leaves none of the characters it escapes in its output, but
/// for the backslashes that begin its `\uXXXX` escapes: no quote, angle
/// bracket, ampersand, equals sign, dash, semicolon, backtick, line or
/// paragraph separator, or control character.
pub proof fn law_escapejs_output_is_plain(s: Seq<char>)
    ensures
        forall|k: int|
            0 <= k < escapejs_spec(s).len() ==> #[trigger] escapejs_spec(s)[k] == '\\'
                || !js_special(escapejs_spec(s)[k]),
{
    let p = |c: char| c == '\\' || !js_special(c);
    assert forall|c: char, k: int| 0 <= k < js_fn()(c).len() implies #[trigger] p(js_fn()(c)[k]) by {
        if js_special(c) {
            let code = (c as u32) as nat;
            assert(js_fn()(c) == unicode_escape(code));
            lemma_hex_digit_plain((code / 4096) % 16);
            lemma_hex_digit_plain((code / 256) % 16);
            lemma_hex_digit_plain((code / 16) % 16);
            lemma_hex_digit_plain(code % 16);
        }
    }
    lemma_flat_map_all(s, js_fn(), p);
    assert forall|k: int| 0 <= k < escapejs_spec(s).len() implies #[trigger] escapejs_spec(s)[k]
        == '\\' || !js_special(escapejs_spec(s)[k]) by {
        assert(p(flat_map(s, js_fn())[k]));
    }
}

// ---------------------------------------------------------------------------
// addslashes
// ---------------------------------------------------------------------------

/// Text without backslashes or quotes goes through `addslashes` unchanged.
pub proof fn law_addslashes_plain_unchanged(s: Seq<char>)
    requires
        forall|k: int| 0 <= k < s.len() ==> #[trigger] s[k] != '\\' && s[k] != '"' && s[k] != '\'',
    ensures
        addslashes_spec(s) == s,
{
    assert forall|k: int| 0 <= k < s.len() implies slash_fn()(#[trigger] s[k]) == seq![s[k]] by {
        assert(slash_fn()(s[k]) == slash_char(s[k]));
    }
    lemma_flat_map_identity(s, slash_fn());
}

// ---------------------------------------------------------------------------
// escape
// ---------------------------------------------------------------------------

/// Escaped text holds no `<`, `>`, `"` or `'`.
pub proof fn law_html_escape_output_is_plain(s: Seq<char>)
    ensures
        forall|k: int|
            0 <= k < html_escape(s).len() ==> #[trigger] html_escape(s)[k] != '<' && html_escape(
                s,
            )[k] != '>' && html_escape(s)[k] != '"' && html_escape(s)[k] != '\'',
{
    let f = |c: char| html_escape_char(c);
    let p = |c: char| c != '<' && c != '>' && c != '"' && c != '\'';
    assert forall|c: char, k: int| 0 <= k < f(c).len() implies #[trigger] p(f(c)[k]) by {}
    lemma_flat_map_all(s, f, p);
    assert forall|k: int| 0 <= k < html_escape(s).len() implies #[trigger] html_escape(s)[k] != '<'
        && html_escape(s)[k] != '>' && html_escape(s)[k] != '"' && html_escape(s)[k] != '\'' by {
        assert(p(flat_map(s, f)[k]));
    }
}

// ---------------------------------------------------------------------------
// cut
// ---------------------------------------------------------------------------

/// Cutting the empty string changes nothing, and cutting never lengthens
/// the text.
pub proof fn law_cut_shrinks(s: Seq<char>, p: Seq<char>)
    ensures
        remove_all(s, Seq::empty()) == s,
        remove_all(s, p).len() <= s.len(),
    decreases s.len(),
{
    if s.len() > 0 && p.len() > 0 {
        if p.len() <= s.len() && s.take(p.len() as int) == p {
            law_cut_shrinks(s.skip(p.len() as int), p);
        } else {
            law_cut_shrinks(s.skip(1), p);
        }
    }
}

// ---------------------------------------------------------------------------
// center
// ---------------------------------------------------------------------------

proof fn lemma_utf8_len_spaces(n: nat)
    ensures
        utf8_len(spaces(n)) == n,
    decreases n,
{
    if n > 0 {
        lemma_utf8_len_spaces((n - 1) as nat);
        assert(spaces(n).drop_last() =~= spaces((n - 1) as nat));
    }
}

/// A value narrower than the field comes out exactly as wide as the field,
/// between runs of spaces that differ by at most one; the odd space goes to
/// the left when the field width is odd and to the right when it is even,
/// as Python's `str.center` places it. A value at least as wide as the
/// field comes out unchanged.
pub proof fn law_center(s: Seq<char>, size: int)
    ensures
        size <= utf8_len(s) ==> center_spec(s, size) == s,
        size > utf8_len(s) ==> ({
            let len = utf8_len(s) as int;
            let marg = size - len;
            let left = marg / 2 + if marg % 2 == 1 && size % 2 == 1 {
                1int
            } else {
                0int
            };
            &&& center_spec(s, size) == spaces(left as nat) + s + spaces((marg - left) as nat)
            &&& utf8_len(center_spec(s, size)) == size
        }),
{
    let len = utf8_len(s) as int;
    if size > len {
        let right = center_right(len, size);
        let left = size - len - right;
        lemma_utf8_len_concat(spaces(left as nat), s);
        lemma_utf8_len_concat(spaces(left as nat) + s, spaces(right as nat));
        lemma_utf8_len_spaces(left as nat);
        lemma_utf8_len_spaces(right as nat);
    }
}

// ---------------------------------------------------------------------------
// slugify
// ---------------------------------------------------------------------------

/// The characters a slug is made of.
pub open spec fn slug_char(c: char) -> bool {
    is_ascii_lower(c) || is_ascii_digit(c) || c == '_' || c == '-'
}

/// What holds of a slug before its ends are stripped.
pub open spec fn slug_run_shape(out: Seq<char>, prev_dash: bool) -> bool {
    &&& forall|k: int| 0 <= k < out.len() ==> slug_char(#[trigger] out[k])
    &&& forall|k: int| 0 <= k < out.len() - 1 ==> !(#[trigger] out[k] == '-' && out[k + 1] == '-')
    &&& out.len() > 0 ==> out[0] != '-'
    &&& prev_dash ==> (out.len() == 0 || out.last() == '-')
    &&& !prev_dash ==> (out.len() > 0 && out.last() != '-')
}

proof fn lemma_slug_run_shape(s: Seq<char>)
    ensures
        slug_run_shape(slug_run(s).0, slug_run(s).1),
    decreases s.len(),
{
    if s.len() > 0 {
        lemma_slug_run_shape(s.drop_last());
        let (out, pd) = slug_run(s.drop_last());
        let (out2, pd2) = slug_run(s);
        assert forall|k: int| 0 <= k < out2.len() implies slug_char(#[trigger] out2[k]) by {
            if k < out.len() {
                assert(out2[k] == out[k]);
            }
        }
        assert forall|k: int| 0 <= k < out2.len() - 1 implies !(#[trigger] out2[k] == '-' && out2[k
            + 1] == '-') by {
            if k + 1 < out.len() {
                assert(out2[k] == out[k]);
                assert(out2[k + 1] == out[k + 1]);
            }
        }
    }
}

/// A slug holds only lower-case ASCII letters, digits, underscores and
/// dashes; it neither starts nor ends with a dash or an underscore; and it
/// never holds two dashes in a row.
pub proof fn law_slug_shape(s: Seq<char>)
    ensures
        forall|k: int| 0 <= k < slug_of(s).len() ==> slug_char(#[trigger] slug_of(s)[k]),
        slug_of(s).len() > 0 ==> !is_slug_edge(slug_of(s)[0]) && !is_slug_edge(slug_of(s).last()),
        forall|k: int|
            0 <= k < slug_of(s).len() - 1 ==> !(#[trigger] slug_of(s)[k] == '-' && slug_of(s)[k
                + 1] == '-'),
{
    let out = slug_run(s).0;
    lemma_slug_run_shape(s);
    lemma_leading_edge(out);
    lemma_trailing_edge(out);
    let a = leading_edge(out) as int;
    let t = trailing_edge(out) as int;
    if a < out.len() {
        assert(!is_slug_edge(out[a]));
        assert(a < out.len() - t);
        let r = slug_of(s);
        assert(r == out.subrange(a, out.len() - t));
        assert forall|k: int| 0 <= k < r.len() implies slug_char(#[trigger] r[k]) by {
            assert(r[k] == out[a + k]);
        }
        assert forall|k: int| 0 <= k < r.len() - 1 implies !(#[trigger] r[k] == '-' && r[k + 1]
            == '-') by {
            assert(r[k] == out[a + k]);
            assert(r[k + 1] == out[a + k + 1]);
        }
        assert(r[0] == out[a]);
        assert(r.last() == out[out.len() - t - 1]);
    }
}

/// A well-formed slug, read as input, goes through the slug-building pass
/// unchanged.
proof fn lemma_slug_run_of_slug(x: Seq<char>, n: int)
    requires
        0 <= n <= x.len(),
        forall|k: int| 0 <= k < x.len() ==> slug_char(#[trigger] x[k]),
        forall|k: int| 0 <= k < x.len() - 1 ==> !(#[trigger] x[k] == '-' && x[k + 1] == '-'),
        x.len() > 0 ==> x[0] != '-',
    ensures
        slug_run(x.take(n)) == (x.take(n), n == 0 || x[n - 1] == '-'),
    decreases n,
{
    if n > 0 {
        lemma_slug_run_of_slug(x, n - 1);
        let t = x.take(n);
        assert(t.drop_last() =~= x.take(n - 1));
        let c = x[n - 1];
        assert(t.last() == c);
        assert(is_ascii_char(c));
        if is_ascii_alnum(c) || c == '_' {
            assert(ascii_lower(c) == c);
            assert(x.take(n - 1).push(c) =~= t);
        } else {
            assert(c == '-');
            assert(!white_space(c));
            if n >= 2 {
                assert(!(x[n - 2] == '-' && x[n - 1] == '-'));
            }
            assert(x.take(n - 1).push('-') =~= t);
        }
    }
}

/// Slugifying a slug gives it back: `slug_of` is idempotent.
pub proof fn law_slug_idempotent(s: Seq<char>)
    ensures
        slug_of(slug_of(s)) == slug_of(s),
{
    let x = slug_of(s);
    law_slug_shape(s);
    lemma_slug_run_of_slug(x, x.len() as int);
    assert(x.take(x.len() as int) =~= x);
    let out = slug_run(x).0;
    assert(out == x);
    if x.len() > 0 {
        assert(leading_edge(x) == 0);
        assert(trailing_edge(x) == 0);
        assert(strip_edges(x) =~= x);
    } else {
        assert(strip_edges(x) =~= x);
    }
}



// ---------------------------------------------------------------------------
// wordwrap
// ---------------------------------------------------------------------------

/// The words of each line in turn.
pub open spec fn words_of_lines(lines: Seq<Seq<char>>) -> Seq<Seq<char>>
    decreases lines.len(),
{
    if lines.len() == 0 {
        Seq::empty()
    } else {
        words_of_lines(lines.drop_last()) + words(lines.last())
    }
}

proof fn lemma_words_empty()
    ensures
        words(Seq::<char>::empty()) == Seq::<Seq<char>>::empty(),
{
    let e = Seq::<char>::empty();
    assert(e.skip(0) =~= e);
}

proof fn lemma_words_join_lines(lines: Seq<Seq<char>>)
    ensures
        words(join(lines, seq!['\n'])) == words_of_lines(lines),
    decreases lines.len(),
{
    if lines.len() == 0 {
        lemma_words_empty();
    } else if lines.len() == 1 {
        assert(lines.drop_last() =~= Seq::<Seq<char>>::empty());
        assert(words_of_lines(lines.drop_last()) == Seq::<Seq<char>>::empty());
        assert(words_of_lines(lines) =~= Seq::<Seq<char>>::empty() + words(lines.last()));
        assert(words_of_lines(lines) =~= words(lines[0]));
    } else {
        lemma_words_join_lines(lines.drop_last());
        lemma_words_concat(join(lines.drop_last(), seq!['\n']), '\n', lines.last());
    }
}

/// White space, a word, then text that is empty or starts with white
/// space: one word, then the words of that text.
proof fn lemma_words_indented_word(indent: Seq<char>, word: Seq<char>, x: Seq<char>)
    requires
        forall|m: int| 0 <= m < indent.len() ==> white_space(#[trigger] indent[m]),
        word.len() > 0,
        forall|m: int| 0 <= m < word.len() ==> !white_space(#[trigger] word[m]),
        x.len() > 0 ==> white_space(x[0]),
    ensures
        words(indent + word + x) == seq![word] + words(x),
{
    lemma_words_word_first(word, x);
    lemma_words_skip_ws(indent, word + x);
    assert(indent + word + x =~= indent + (word + x));
}

/// How `wrap_gaps` takes `s` apart when it finds a further word: the run
/// of white space, the word and the rest.
proof fn lemma_gap_word(s: Seq<char>)
    ensures
        ({
            let g = leading_ws(s) as int;
            let t = s.skip(g);
            let w = leading_word(t) as int;
            &&& g <= s.len()
            &&& forall|m: int| 0 <= m < g ==> white_space(#[trigger] s.take(g)[m])
            &&& t.len() > 0 ==> (1 <= w <= t.len() && (forall|m: int|
                0 <= m < w ==> !white_space(#[trigger] t.take(w)[m])) && (t.skip(w).len() > 0
                ==> white_space(t.skip(w)[0])) && s =~= s.take(g) + t.take(w) + t.skip(w))
            &&& t.len() == 0 ==> forall|m: int| 0 <= m < s.len() ==> white_space(#[trigger] s[m])
        }),
{
    lemma_leading_ws(s);
    let g = leading_ws(s) as int;
    let t = s.skip(g);
    assert forall|m: int| 0 <= m < g implies white_space(#[trigger] s.take(g)[m]) by {
        assert(s.take(g)[m] == s[m]);
    }
    if t.len() > 0 {
        assert(t[0] == s[g]);
        lemma_leading_word(t);
        let w = leading_word(t) as int;
        assert forall|m: int| 0 <= m < w implies !white_space(#[trigger] t.take(w)[m]) by {
            assert(t.take(w)[m] == t[m]);
        }
        if t.skip(w).len() > 0 {
            assert(t.skip(w)[0] == t[w]);
        }
    }
}

/// `wrap_gaps` keeps the words, and what it writes from text that is empty
/// or starts with white space is so too.
proof fn lemma_wrap_gaps_words(s: Seq<char>, cur: int, width: int)
    ensures
        words(wrap_gaps(s, cur, width)) == words(s),
        s.len() > 0 ==> white_space(s[0]) ==> (wrap_gaps(s, cur, width).len() > 0
            ==> white_space(wrap_gaps(s, cur, width)[0])),
    decreases s.len(),
{
    lemma_gap_word(s);
    let g = leading_ws(s) as int;
    let t = s.skip(g);
    if t.len() > 0 {
        let w = leading_word(t) as int;
        let gap = s.take(g);
        let word = t.take(w);
        let rest = t.skip(w);
        let next = cur + utf8_len(gap) + utf8_len(word);
        lemma_wrap_gaps_words(rest, next, width);
        lemma_wrap_gaps_words(rest, utf8_len(word) as int, width);
        lemma_words_indented_word(gap, word, rest);
        if next <= width {
            let out = wrap_gaps(rest, next, width);
            lemma_words_indented_word(gap, word, out);
            if g > 0 {
                assert((gap + word + out)[0] == gap[0]);
            }
        } else {
            let out = wrap_gaps(rest, utf8_len(word) as int, width);
            assert forall|m: int| 0 <= m < seq!['\n'].len() implies white_space(
                #[trigger] seq!['\n'][m],
            ) by {}
            lemma_words_indented_word(seq!['\n'], word, out);
            assert((seq!['\n'] + word + out)[0] == '\n');
        }
    }
}

/// Wrapping a line keeps its words.
proof fn lemma_wrap_line_words(l: Seq<char>, width: int)
    ensures
        words(wrap_line(l, width)) == words(l),
{
    let e = first_word_end(l);
    lemma_gap_word(l);
    let k = leading_ws(l) as int;
    let t = l.skip(k);
    let w = leading_word(t) as int;
    if t.len() > 0 {
        let rest = l.skip(e);
        assert(rest =~= t.skip(w));
        assert(l.take(e) =~= l.take(k) + t.take(w));
        lemma_wrap_gaps_words(rest, utf8_len(l.take(e)) as int, width);
        let out = wrap_gaps(rest, utf8_len(l.take(e)) as int, width);
        lemma_words_indented_word(l.take(k), t.take(w), out);
        lemma_words_indented_word(l.take(k), t.take(w), rest);
        assert(wrap_line(l, width) =~= l.take(k) + t.take(w) + out);
    } else {
        lemma_leading_word(t);
        assert(e == k);
        assert(l.skip(e).len() == 0);
        assert(wrap_line(l, width) =~= l);
    }
}

proof fn lemma_words_of_wrapped_lines(lines: Seq<Seq<char>>, width: int)
    ensures
        words_of_lines(lines.map_values(wrap_fn(width))) == words_of_lines(lines),
    decreases lines.len(),
{
    if lines.len() > 0 {
        let wrapped = lines.map_values(wrap_fn(width));
        assert(wrapped.drop_last() =~= lines.drop_last().map_values(wrap_fn(width)));
        lemma_words_of_wrapped_lines(lines.drop_last(), width);
        lemma_wrap_line_words(lines.last(), width);
        assert(wrapped.last() == wrap_line(lines.last(), width));
    }
}

/// Wrapping changes only white space: the wrapped text has the same words,
/// in the same order, as the text; long words are never broken.
pub proof fn law_wordwrap_keeps_words(text: Seq<char>, width: int)
    ensures
        words(wordwrap_spec(text, width)) == words(text),
{
    let lines = split_char(text, '\n');
    lemma_words_join_lines(lines.map_values(wrap_fn(width)));
    lemma_words_of_wrapped_lines(lines, width);
    lemma_join_split(text, '\n');
    lemma_words_join_lines(lines);
}

/// What follows on a line that stays at most `width` bytes wide is kept.
proof fn lemma_wrap_gaps_short(s: Seq<char>, cur: int, width: int)
    requires
        cur + utf8_len(s) <= width,
    ensures
        wrap_gaps(s, cur, width) == s,
    decreases s.len(),
{
    lemma_gap_word(s);
    let g = leading_ws(s) as int;
    let t = s.skip(g);
    if t.len() > 0 {
        let w = leading_word(t) as int;
        let gap = s.take(g);
        let word = t.take(w);
        let rest = t.skip(w);
        lemma_utf8_len_concat(gap, word);
        lemma_utf8_len_concat(gap + word, rest);
        lemma_wrap_gaps_short(rest, cur + utf8_len(gap) + utf8_len(word), width);
    }
}

/// A line at most `width` bytes wide is kept as it is.
proof fn lemma_wrap_line_short(l: Seq<char>, width: int)
    requires
        utf8_len(l) <= width,
    ensures
        wrap_line(l, width) == l,
{
    let e = first_word_end(l);
    lemma_gap_word(l);
    lemma_leading_word(l.skip(leading_ws(l) as int));
    if e <= l.len() {
        lemma_utf8_len_concat(l.take(e), l.skip(e));
        assert(l.take(e) + l.skip(e) =~= l);
        lemma_wrap_gaps_short(l.skip(e), utf8_len(l.take(e)) as int, width);
    }
}

/// Text whose lines are each at most `width` bytes wide comes out of
/// `wordwrap` unchanged, whatever white space it holds: line breaks are
/// added only where a line is too wide.
pub proof fn law_wordwrap_keeps_short_lines(text: Seq<char>, width: int)
    requires
        forall|k: int|
            0 <= k < split_char(text, '\n').len() ==> utf8_len(#[trigger] split_char(text, '\n')[k])
                <= width,
    ensures
        wordwrap_spec(text, width) == text,
{
    let lines = split_char(text, '\n');
    assert forall|k: int| 0 <= k < lines.len() implies #[trigger] lines.map_values(wrap_fn(width))[k]
        == lines[k] by {
        lemma_wrap_line_short(lines[k], width);
    }
    assert(lines.map_values(wrap_fn(width)) =~= lines);
    lemma_join_split(text, '\n');
}

/// Joining two non-empty lists of pieces one after the other.
proof fn lemma_join_concat(a: Seq<Seq<char>>, b: Seq<Seq<char>>, sep: Seq<char>)
    requires
        a.len() >= 1,
        b.len() >= 1,
    ensures
        join(a + b, sep) == join(a, sep) + sep + join(b, sep),
    decreases b.len(),
{
    if b.len() == 1 {
        assert((a + b).drop_last() =~= a);
    } else {
        lemma_join_concat(a, b.drop_last(), sep);
        assert((a + b).drop_last() =~= a + b.drop_last());
        assert(join(a + b, sep) =~= join(a, sep) + sep + join(b.drop_last(), sep) + sep + b.last());
    }
}

/// Each line is wrapped on its own and the line breaks already in the text
/// are kept: wrapping two texts with a line break between them is wrapping
/// each and putting the line break between the results.
pub proof fn law_wordwrap_line_by_line(a: Seq<char>, b: Seq<char>, width: int)
    ensures
        wordwrap_spec(a + seq!['\n'] + b, width) == wordwrap_spec(a, width) + seq!['\n']
            + wordwrap_spec(b, width),
{
    lemma_split_char_concat(a, '\n', b);
    lemma_split_char_nonempty(a, '\n');
    lemma_split_char_nonempty(b, '\n');
    let la = split_char(a, '\n');
    let lb = split_char(b, '\n');
    assert((la + lb).map_values(wrap_fn(width)) =~= la.map_values(wrap_fn(width))
        + lb.map_values(wrap_fn(width)));
    lemma_join_concat(la.map_values(wrap_fn(width)), lb.map_values(wrap_fn(width)), seq!['\n']);
}

/// A slug is ASCII text that is its own slug. Since NFKD leaves ASCII text
/// unchanged (the contract of the call that computes it), `slugify` of a
/// slug gives the slug back: `slugify` is idempotent.
pub proof fn law_slugify_idempotent(s: Seq<char>)
    ensures
        ascii_text(slugify_spec(s)),
        slug_of(slugify_spec(s)) == slugify_spec(s),
{
    law_slug_shape(nfkd(s));
    law_slug_idempotent(nfkd(s));
    assert forall|k: int| 0 <= k < slugify_spec(s).len() implies is_ascii_char(
        #[trigger] slugify_spec(s)[k],
    ) by {
        assert(slug_char(slug_of(nfkd(s))[k]));
    }
}


// ---------------------------------------------------------------------------
// wordwrap: line widths, and wrapping twice
// ---------------------------------------------------------------------------

/// `s` without the white space at its end.
pub open spec fn trim_end(s: Seq<char>) -> Seq<char>
    decreases s.len(),
{
    if s.len() > 0 && white_space(s.last()) {
        trim_end(s.drop_last())
    } else {
        s
    }
}

/// A line holding two or more words is at most `width` bytes wide, not
/// counting the white space at its end.
pub open spec fn fits(line: Seq<char>, width: int) -> bool {
    words(line).len() >= 2 ==> utf8_len(trim_end(line)) <= width
}

pub open spec fn all_fit(lines: Seq<Seq<char>>, width: int) -> bool {
    forall|k: int| 0 <= k < lines.len() ==> fits(#[trigger] lines[k], width)
}

proof fn lemma_trim_end_concat(a: Seq<char>, b: Seq<char>)
    ensures
        trim_end(a + b) == if trim_end(b).len() > 0 {
            a + trim_end(b)
        } else {
            trim_end(a)
        },
    decreases b.len(),
{
    if b.len() == 0 {
        assert(a + b =~= a);
    } else if white_space(b.last()) {
        assert((a + b).drop_last() =~= a + b.drop_last());
        assert((a + b).last() == b.last());
        lemma_trim_end_concat(a, b.drop_last());
    } else {
        assert((a + b).last() == b.last());
    }
}

/// Text ending in a character that is not white space is its own trim.
proof fn lemma_trim_end_word(a: Seq<char>)
    requires
        a.len() > 0,
        !white_space(a.last()),
    ensures
        trim_end(a) == a,
{
}

/// Text of white space only trims to nothing and has no words.
proof fn lemma_all_ws(s: Seq<char>)
    requires
        forall|m: int| 0 <= m < s.len() ==> white_space(#[trigger] s[m]),
    ensures
        trim_end(s) == Seq::<char>::empty(),
        words(s) == Seq::<Seq<char>>::empty(),
    decreases s.len(),
{
    if s.len() > 0 {
        lemma_all_ws(s.drop_last());
    }
    lemma_words_skip_ws(s, Seq::<char>::empty());
    assert(s + Seq::<char>::empty() =~= s);
    lemma_words_empty();
}

/// What follows on a line, its last word included, that keeps the line at
/// most `width` bytes wide is kept as it is.
proof fn lemma_wrap_gaps_fixed(s: Seq<char>, cur: int, width: int)
    requires
        cur + utf8_len(trim_end(s)) <= width,
    ensures
        wrap_gaps(s, cur, width) == s,
    decreases s.len(),
{
    lemma_gap_word(s);
    let g = leading_ws(s) as int;
    let t = s.skip(g);
    if t.len() > 0 {
        let w = leading_word(t) as int;
        let gap = s.take(g);
        let word = t.take(w);
        let rest = t.skip(w);
        let gw = gap + word;
        assert(gw.last() == word[w - 1]);
        lemma_trim_end_word(gw);
        assert(s =~= gw + rest);
        lemma_trim_end_concat(gw, rest);
        lemma_utf8_len_concat(gap, word);
        lemma_utf8_len_concat(gw, trim_end(rest));
        lemma_wrap_gaps_fixed(rest, cur + utf8_len(gap) + utf8_len(word), width);
    }
}

/// The lines that `wrap_gaps` makes after a current line `l`, `cur` bytes
/// wide and ending in a word, all fit.
proof fn lemma_wrap_gaps_fit(l: Seq<char>, s: Seq<char>, cur: int, width: int)
    requires
        l.len() > 0,
        !white_space(l.last()),
        forall|m: int| 0 <= m < l.len() ==> #[trigger] l[m] != '\n',
        forall|m: int| 0 <= m < s.len() ==> #[trigger] s[m] != '\n',
        s.len() > 0 ==> white_space(s[0]),
        cur == utf8_len(l),
        words(l).len() >= 2 ==> cur <= width,
    ensures
        all_fit(split_char(l + wrap_gaps(s, cur, width), '\n'), width),
    decreases s.len(),
{
    lemma_gap_word(s);
    let g = leading_ws(s) as int;
    let t = s.skip(g);
    lemma_trim_end_word(l);
    if t.len() == 0 {
        let x = l + s;
        assert forall|m: int| 0 <= m < x.len() implies #[trigger] x[m] != '\n' by {
            if m >= l.len() {
                assert(x[m] == s[m - l.len()]);
            }
        }
        lemma_split_char_free(x, '\n');
        lemma_all_ws(s);
        lemma_trim_end_concat(l, s);
        if s.len() > 0 {
            lemma_words_concat(l, s[0], s.drop_first());
            assert(s.drop_first() =~= s.skip(1));
            assert forall|m: int| 0 <= m < s.drop_first().len() implies white_space(
                #[trigger] s.drop_first()[m],
            ) by {
                assert(s.drop_first()[m] == s[m + 1]);
            }
            lemma_all_ws(s.drop_first());
            assert(l + seq![s[0]] + s.drop_first() =~= x);
            assert(words(l) + Seq::<Seq<char>>::empty() =~= words(l));
        } else {
            assert(x =~= l);
        }
        assert(fits(split_char(x, '\n')[0], width));
    } else {
        let w = leading_word(t) as int;
        let gap = s.take(g);
        let word = t.take(w);
        let rest = t.skip(w);
        let next = cur + utf8_len(gap) + utf8_len(word);
        assert(word.last() == word[w - 1]);
        assert forall|m: int| 0 <= m < rest.len() implies #[trigger] rest[m] != '\n' by {
            assert(rest[m] == s[g + w + m]);
        }
        assert forall|m: int| 0 <= m < word.len() implies #[trigger] word[m] != '\n' by {
            assert(!white_space(word[m]));
        }
        if next <= width {
            let l2 = l + gap + word;
            assert(l2.last() == word.last());
            assert forall|m: int| 0 <= m < l2.len() implies #[trigger] l2[m] != '\n' by {
                if m < l.len() {
                    assert(l2[m] == l[m]);
                } else if m < l.len() + g {
                    assert(l2[m] == s[m - l.len()]);
                } else {
                    assert(l2[m] == word[m - l.len() - g]);
                }
            }
            lemma_utf8_len_concat(l, gap);
            lemma_utf8_len_concat(l + gap, word);
            lemma_wrap_gaps_fit(l2, rest, next, width);
            assert(l + wrap_gaps(s, cur, width) =~= l2 + wrap_gaps(rest, next, width));
        } else {
            let out = wrap_gaps(rest, utf8_len(word) as int, width);
            assert forall|m: int| 0 <= m < word.len() implies !white_space(#[trigger] word[m]) by {}
            lemma_words_single(word);
            lemma_wrap_gaps_fit(word, rest, utf8_len(word) as int, width);
            assert(l + wrap_gaps(s, cur, width) =~= l + seq!['\n'] + (word + out));
            lemma_split_char_concat(l, '\n', word + out);
            lemma_split_char_free(l, '\n');
            let a = split_char(l, '\n');
            let b = split_char(word + out, '\n');
            assert(fits(l, width));
            assert forall|k: int| 0 <= k < (a + b).len() implies fits(#[trigger] (a + b)[k], width) by {
                if k >= a.len() {
                    assert((a + b)[k] == b[k - a.len()]);
                } else {
                    assert((a + b)[k] == a[k]);
                }
            }
        }
    }
}

proof fn lemma_words_single(w: Seq<char>)
    requires
        w.len() > 0,
        forall|m: int| 0 <= m < w.len() ==> !white_space(#[trigger] w[m]),
    ensures
        words(w) == seq![w],
{
    lemma_words_word_first(w, Seq::empty());
    assert(w + Seq::<char>::empty() =~= w);
    lemma_words_empty();
    assert(seq![w] + Seq::<Seq<char>>::empty() =~= seq![w]);
}

/// The lines that wrapping one line makes all fit.
proof fn lemma_wrap_line_fits(l: Seq<char>, width: int)
    requires
        forall|m: int| 0 <= m < l.len() ==> #[trigger] l[m] != '\n',
    ensures
        all_fit(split_char(wrap_line(l, width), '\n'), width),
{
    let e = first_word_end(l);
    lemma_gap_word(l);
    let k = leading_ws(l) as int;
    let t = l.skip(k);
    if t.len() == 0 {
        lemma_leading_word(t);
        assert(l.skip(e).len() == 0);
        assert(wrap_line(l, width) =~= l);
        lemma_split_char_free(l, '\n');
        lemma_all_ws(l);
        assert(fits(split_char(l, '\n')[0], width));
    } else {
        let w = leading_word(t) as int;
        let l0 = l.take(e);
        let rest = l.skip(e);
        assert(rest =~= t.skip(w));
        assert(l0 =~= l.take(k) + t.take(w));
        assert(l0.last() == t.take(w)[w - 1]);
        assert forall|m: int| 0 <= m < l0.len() implies #[trigger] l0[m] != '\n' by {
            assert(l0[m] == l[m]);
        }
        assert forall|m: int| 0 <= m < rest.len() implies #[trigger] rest[m] != '\n' by {
            assert(rest[m] == l[e + m]);
        }
        assert forall|m: int| 0 <= m < t.take(w).len() implies !white_space(#[trigger] t.take(w)[m]) by {}
        lemma_words_single(t.take(w));
        lemma_words_skip_ws(l.take(k), t.take(w));
        lemma_wrap_gaps_fit(l0, rest, utf8_len(l0) as int, width);
    }
}

proof fn lemma_join_fits(parts: Seq<Seq<char>>, width: int)
    requires
        forall|k: int| 0 <= k < parts.len() ==> all_fit(split_char(#[trigger] parts[k], '\n'), width),
    ensures
        all_fit(split_char(join(parts, seq!['\n']), '\n'), width),
    decreases parts.len(),
{
    if parts.len() == 0 {
        let e = Seq::<char>::empty();
        lemma_split_char_free(e, '\n');
        lemma_words_empty();
    } else if parts.len() == 1 {
        assert(parts[0] == join(parts, seq!['\n']));
    } else {
        let init = parts.drop_last();
        assert forall|k: int| 0 <= k < init.len() implies all_fit(split_char(#[trigger] init[k], '\n'), width) by {
            assert(init[k] == parts[k]);
        }
        lemma_join_fits(init, width);
        lemma_split_char_concat(join(init, seq!['\n']), '\n', parts.last());
        let a = split_char(join(init, seq!['\n']), '\n');
        let b = split_char(parts.last(), '\n');
        assert(all_fit(b, width)) by {
            assert(parts.last() == parts[parts.len() - 1]);
        }
        assert forall|k: int| 0 <= k < (a + b).len() implies fits(#[trigger] (a + b)[k], width) by {
            if k >= a.len() {
                assert((a + b)[k] == b[k - a.len()]);
            } else {
                assert((a + b)[k] == a[k]);
            }
        }
    }
}

/// Every line of wrapped text that holds two or more words is at most
/// `width` bytes wide, not counting white space at its end: only a line
/// holding a single word, with the indentation before it, can be wider.
pub proof fn law_wordwrap_lines_fit(text: Seq<char>, width: int)
    ensures
        all_fit(split_char(wordwrap_spec(text, width), '\n'), width),
{
    let lines = split_char(text, '\n');
    let wrapped = lines.map_values(wrap_fn(width));
    lemma_split_char_pieces_free(text, '\n');
    assert forall|k: int| 0 <= k < wrapped.len() implies all_fit(split_char(#[trigger] wrapped[k], '\n'), width) by {
        assert forall|m: int| 0 <= m < lines[k].len() implies #[trigger] lines[k][m] != '\n' by {
            assert(split_char(text, '\n')[k][m] != '\n');
        }
        lemma_wrap_line_fits(lines[k], width);
    }
    lemma_join_fits(wrapped, width);
}

/// After a first word, what follows a line that fits is kept.
proof fn lemma_wrap_rest_fixed(l0: Seq<char>, rest: Seq<char>, width: int)
    requires
        l0.len() > 0,
        !white_space(l0.last()),
        words(l0 + rest).len() >= 1 + words(rest).len(),
        fits(l0 + rest, width),
    ensures
        wrap_gaps(rest, utf8_len(l0) as int, width) == rest,
{
    lemma_gap_word(rest);
    let t2 = rest.skip(leading_ws(rest) as int);
    if t2.len() > 0 {
        let w2 = leading_word(t2) as int;
        let gap2 = rest.take(leading_ws(rest) as int);
        let word2 = t2.take(w2);
        let gw = gap2 + word2;
        assert(gw.last() == word2[w2 - 1]);
        lemma_trim_end_word(gw);
        lemma_trim_end_concat(gw, t2.skip(w2));
        assert(rest =~= gw + t2.skip(w2));
        lemma_words_indented_word(gap2, word2, t2.skip(w2));
        lemma_trim_end_word(l0);
        lemma_trim_end_concat(l0, rest);
        lemma_utf8_len_concat(l0, trim_end(rest));
        lemma_wrap_gaps_fixed(rest, utf8_len(l0) as int, width);
    }
}

/// A line that fits comes out of `wrap_line` unchanged.
proof fn lemma_wrap_line_fixed(l: Seq<char>, width: int)
    requires
        fits(l, width),
    ensures
        wrap_line(l, width) == l,
{
    let e = first_word_end(l);
    lemma_gap_word(l);
    let k = leading_ws(l) as int;
    let t = l.skip(k);
    if t.len() == 0 {
        lemma_leading_word(t);
        assert(l.skip(e).len() == 0);
        assert(wrap_line(l, width) =~= l);
    } else {
        let w = leading_word(t) as int;
        let l0 = l.take(e);
        let rest = l.skip(e);
        assert(rest =~= t.skip(w));
        assert(l0 =~= l.take(k) + t.take(w));
        assert(l =~= l0 + rest);
        assert forall|m: int| 0 <= m < t.take(w).len() implies !white_space(#[trigger] t.take(w)[m]) by {}
        lemma_words_indented_word(l.take(k), t.take(w), rest);
        assert(l0.last() == t.take(w)[w - 1]);
        lemma_wrap_rest_fixed(l0, rest, width);
        assert(wrap_line(l, width) =~= l0 + wrap_gaps(rest, utf8_len(l0) as int, width));
    }
}

/// Wrapping wrapped text changes nothing: `wordwrap` is idempotent.
pub proof fn law_wordwrap_idempotent(text: Seq<char>, width: int)
    ensures
        wordwrap_spec(wordwrap_spec(text, width), width) == wordwrap_spec(text, width),
{
    let out = wordwrap_spec(text, width);
    let lines = split_char(out, '\n');
    law_wordwrap_lines_fit(text, width);
    assert forall|k: int| 0 <= k < lines.len() implies #[trigger] lines.map_values(wrap_fn(width))[k]
        == lines[k] by {
        lemma_wrap_line_fixed(lines[k], width);
    }
    assert(lines.map_values(wrap_fn(width)) =~= lines);
    lemma_join_split(out, '\n');
}


// ---------------------------------------------------------------------------
// escapejs, character by character
// ---------------------------------------------------------------------------

proof fn lemma_flat_map_concat(a: Seq<char>, b: Seq<char>, f: spec_fn(char) -> Seq<char>)
    ensures
        flat_map(a + b, f) == flat_map(a, f) + flat_map(b, f),
    decreases b.len(),
{
    if b.len() == 0 {
        assert(a + b =~= a);
        assert(flat_map(b, f) == Seq::<char>::empty());
        assert(flat_map(a, f) + Seq::<char>::empty() =~= flat_map(a, f));
    } else {
        lemma_flat_map_concat(a, b.drop_last(), f);
        assert((a + b).drop_last() =~= a + b.drop_last());
        assert((a + b).last() == b.last());
    }
}

proof fn lemma_flat_map_single(c: char, f: spec_fn(char) -> Seq<char>)
    ensures
        flat_map(seq![c], f) == f(c),
{
    assert(seq![c].drop_last() =~= Seq::<char>::empty());
    assert(flat_map(Seq::<char>::empty(), f) == Seq::<char>::empty());
    assert(seq![c].last() == c);
    assert(Seq::<char>::empty() + f(c) =~= f(c));
}

/// `escapejs` works character by character: escaping two texts one after
/// the other is escaping each.
pub proof fn law_escapejs_concat(a: Seq<char>, b: Seq<char>)
    ensures
        escapejs_spec(a + b) == escapejs_spec(a) + escapejs_spec(b),
{
    lemma_flat_map_concat(a, b, js_fn());
}

/// Backslashes, quotes, `<`, `>`, `&`, `=`, `-`, `;`, backticks, the line
/// and paragraph separators and every control character below U+0020 are
/// written as `\uXXXX` with their code; every other character is kept.
pub proof fn law_escapejs_char(c: char)
    ensures
        (c == '\\' || c == '\'' || c == '"' || c == '>' || c == '<' || c == '&' || c == '='
            || c == '-' || c == ';' || c == '`' || c == '\u{2028}' || c == '\u{2029}' || c
            <= '\x1f') ==> escapejs_spec(seq![c]) == unicode_escape((c as u32) as nat),
        !(c == '\\' || c == '\'' || c == '"' || c == '>' || c == '<' || c == '&' || c == '='
            || c == '-' || c == ';' || c == '`' || c == '\u{2028}' || c == '\u{2029}' || c
            <= '\x1f') ==> escapejs_spec(seq![c]) == seq![c],
{
    lemma_flat_map_single(c, js_fn());
}

/// The output of `escapejs` holds no control character below U+0020.
pub proof fn law_escapejs_no_control(s: Seq<char>)
    ensures
        forall|k: int| 0 <= k < escapejs_spec(s).len() ==> !(#[trigger] escapejs_spec(s)[k] <= '\x1f'),
{
    let p = |c: char| !(c <= '\x1f');
    assert forall|c: char, k: int| 0 <= k < js_fn()(c).len() implies #[trigger] p(js_fn()(c)[k]) by {
        if js_special(c) {
            let code = (c as u32) as nat;
            assert(js_fn()(c) == unicode_escape(code));
            assert(!(hex_digit((code / 4096) % 16) <= '\x1f'));
            assert(!(hex_digit((code / 256) % 16) <= '\x1f'));
            assert(!(hex_digit((code / 16) % 16) <= '\x1f'));
            assert(!(hex_digit(code % 16) <= '\x1f'));
        }
    }
    lemma_flat_map_all(s, js_fn(), p);
    assert forall|k: int| 0 <= k < escapejs_spec(s).len() implies !(#[trigger] escapejs_spec(s)[k]
        <= '\x1f') by {
        assert(p(flat_map(s, js_fn())[k]));
    }
}

// ---------------------------------------------------------------------------
// capfirst
// ---------------------------------------------------------------------------

/// `capfirst` changes only the first character: a single character becomes
/// its upper case, empty text stays empty, and whatever follows the first
/// character is kept as it is.
pub proof fn law_capfirst(c: char, t: Seq<char>)
    ensures
        capfirst_spec(Seq::<char>::empty()) == Seq::<char>::empty(),
        capfirst_spec(seq![c]) == char_upper(c),
        capfirst_spec(seq![c] + t) == capfirst_spec(seq![c]) + t,
{
    assert(seq![c].drop_first() =~= Seq::<char>::empty());
    assert(char_upper(c) + Seq::<char>::empty() =~= char_upper(c));
    assert((seq![c] + t)[0] == c);
    assert((seq![c] + t).drop_first() =~= t);
}

// ---------------------------------------------------------------------------
// title
// ---------------------------------------------------------------------------

/// Title-casing more text only adds to what the text before it gave.
proof fn lemma_title_prefix(x: Seq<char>, y: Seq<char>)
    ensures
        title_spec(x + y).len() >= title_spec(x).len(),
        title_spec(x + y).take(title_spec(x).len() as int) == title_spec(x),
    decreases y.len(),
{
    if y.len() == 0 {
        assert(x + y =~= x);
        assert(title_spec(x).take(title_spec(x).len() as int) =~= title_spec(x));
    } else {
        lemma_title_prefix(x, y.drop_last());
        assert((x + y).drop_last() =~= x + y.drop_last());
        let prev = title_spec(x + y.drop_last());
        let n = title_spec(x).len() as int;
        assert(title_spec(x + y).take(prev.len() as int) =~= prev);
        assert(title_spec(x + y).take(n) =~= prev.take(n));
    }
}

/// The character that `title` makes of a letter `c` that follows `p`.
proof fn lemma_title_after(a: Seq<char>, p: char, c: char, b: Seq<char>)
    requires
        alphabetic(c),
    ensures
        ({
            let head = title_spec(a + seq![p]);
            let piece = if (is_ascii_digit(p) || alphabetic(p)) {
                char_lower(c)
            } else if p == '\'' {
                if title_run(a + seq![p]).1 {
                    char_lower(c)
                } else {
                    char_upper(c)
                }
            } else {
                char_upper(c)
            };
            title_spec(a + seq![p, c] + b).take((head + piece).len() as int) == head + piece
        }),
{
    let x = a + seq![p, c];
    assert(x.drop_last() =~= a + seq![p]);
    assert(x[x.len() - 2] == p);
    assert(x.last() == c);
    lemma_title_prefix(x, b);
}

/// A letter that follows a character that is neither a letter, a digit nor
/// an apostrophe starts a word and is put in upper case; a letter that
/// follows a letter or a digit is put in lower case.
pub proof fn law_title_word_start(a: Seq<char>, p: char, c: char, b: Seq<char>)
    requires
        alphabetic(c),
    ensures
        !alphabetic(p) && !is_ascii_digit(p) && p != '\'' ==> title_spec(a + seq![p, c] + b).take(
            (title_spec(a + seq![p]) + char_upper(c)).len() as int,
        ) == title_spec(a + seq![p]) + char_upper(c),
        alphabetic(p) || is_ascii_digit(p) ==> title_spec(a + seq![p, c] + b).take(
            (title_spec(a + seq![p]) + char_lower(c)).len() as int,
        ) == title_spec(a + seq![p]) + char_lower(c),
{
    lemma_title_after(a, p, c, b);
}

/// The first letter of a text is put in upper case.
pub proof fn law_title_first_letter(c: char, b: Seq<char>)
    requires
        alphabetic(c),
    ensures
        title_spec(seq![c] + b).take(char_upper(c).len() as int) == char_upper(c),
{
    assert(seq![c].drop_last() =~= Seq::<char>::empty());
    assert(title_run(Seq::<char>::empty()) == (Seq::<char>::empty(), false));
    assert(seq![c].last() == c);
    assert(Seq::<char>::empty() + char_upper(c) =~= char_upper(c));
    assert(title_spec(seq![c]) =~= char_upper(c));
    lemma_title_prefix(seq![c], b);
}

// ---------------------------------------------------------------------------
// slugify: characters that are dropped
// ---------------------------------------------------------------------------

proof fn lemma_slug_run_drops(a: Seq<char>, c: char, b: Seq<char>)
    requires
        is_ascii_char(c),
        !is_ascii_alnum(c),
        c != '_',
        c != '-',
        !white_space(c),
    ensures
        slug_run(a + seq![c] + b) == slug_run(a + b),
    decreases b.len(),
{
    if b.len() == 0 {
        assert(a + seq![c] + b =~= a + seq![c]);
        assert((a + seq![c]).drop_last() =~= a);
        assert(a + b =~= a);
    } else {
        lemma_slug_run_drops(a, c, b.drop_last());
        assert((a + seq![c] + b).drop_last() =~= a + seq![c] + b.drop_last());
        assert((a + b).drop_last() =~= a + b.drop_last());
        assert((a + seq![c] + b).last() == b.last());
        assert((a + b).last() == b.last());
    }
}

/// An ASCII character that is neither a letter, a digit, an underscore, a
/// dash nor white space (an apostrophe, a period, ...) adds nothing to a
/// slug: the slug of text with it is the slug of the text without it.
pub proof fn law_slug_drops_punctuation(a: Seq<char>, c: char, b: Seq<char>)
    requires
        is_ascii_char(c),
        !is_ascii_alnum(c),
        c != '_',
        c != '-',
        !white_space(c),
    ensures
        slug_of(a + seq![c] + b) == slug_of(a + b),
{
    lemma_slug_run_drops(a, c, b);
}

// ---------------------------------------------------------------------------
// truth of values
// ---------------------------------------------------------------------------

/// An integer counts as true exactly when it is not zero, whatever its sign,
/// as Python's `bool()` says; text exactly when it is not empty; a boolean
/// when it is `True`.
pub proof fn law_integer_truth(n: Integer, t: ContentString, b: bool)
    ensures
        Content::Int(n).truthy() == (n.value() != 0),
        Content::String(t).truthy() == (t.raw().len() > 0),
        Content::Bool(b).truthy() == b,
{
}


/// Lower-case ASCII letters and digits only.
pub open spec fn lower_alnum(u: Seq<char>) -> bool {
    forall|k: int| 0 <= k < u.len() ==> is_ascii_lower(#[trigger] u[k]) || is_ascii_digit(u[k])
}

proof fn lemma_slug_run_alnum(p: Seq<char>, u: Seq<char>)
    requires
        lower_alnum(u),
    ensures
        slug_run(p + u).0 == slug_run(p).0 + u,
        u.len() > 0 ==> !slug_run(p + u).1,
        u.len() == 0 ==> slug_run(p + u).1 == slug_run(p).1,
    decreases u.len(),
{
    if u.len() == 0 {
        assert(p + u =~= p);
        assert(slug_run(p).0 + u =~= slug_run(p).0);
    } else {
        let v = u.drop_last();
        assert(lower_alnum(v)) by {
            assert forall|k: int| 0 <= k < v.len() implies is_ascii_lower(#[trigger] v[k]) || is_ascii_digit(v[k]) by {
                assert(v[k] == u[k]);
            }
        }
        lemma_slug_run_alnum(p, v);
        assert((p + u).drop_last() =~= p + v);
        let c = u.last();
        assert((p + u).last() == c);
        assert(is_ascii_lower(c) || is_ascii_digit(c));
        assert(ascii_lower(c) == c);
        assert(slug_run(p).0 + v + seq![c] =~= slug_run(p).0 + u);
    }
}

/// Two words of lower-case ASCII letters and digits with a white-space
/// character or a dash between them slugify to the words joined by one
/// dash.
pub proof fn law_slug_two_words(x: Seq<char>, sep: char, y: Seq<char>)
    requires
        x.len() > 0,
        y.len() > 0,
        lower_alnum(x),
        lower_alnum(y),
        is_ascii_char(sep),
        white_space(sep) || sep == '-',
    ensures
        slug_of(x + seq![sep] + y) == x + seq!['-'] + y,
{
    let e = Seq::<char>::empty();
    lemma_slug_run_alnum(e, x);
    assert(e + x =~= x);
    assert(slug_run(e) == (e, true));
    let xs = x + seq![sep];
    assert(xs.drop_last() =~= x);
    assert(xs.last() == sep);
    assert(!is_ascii_alnum(sep) && sep != '_');
    assert(slug_run(xs) == (x.push('-'), true));
    lemma_slug_run_alnum(xs, y);
    let z = x + seq!['-'] + y;
    assert(slug_run(xs + y).0 =~= z);
    assert(xs + y =~= x + seq![sep] + y);
    assert(z[0] == x[0]);
    assert(z.last() == y.last());
    assert(leading_edge(z) == 0);
    assert(trailing_edge(z) == 0);
    assert(strip_edges(z) =~= z);
}

/// After a letter that follows a letter or a digit, an apostrophe does not
/// start a word: the letter after it is put in lower case ("don't" keeps
/// its `t` in lower case).
pub proof fn law_title_apostrophe(a: Seq<char>, q: char, l: char, c: char, b: Seq<char>)
    requires
        alphabetic(q) || is_ascii_digit(q),
        alphabetic(l),
        alphabetic(c),
    ensures
        title_spec(a + seq![q, l, '\'', c] + b).take(
            (title_spec(a + seq![q, l, '\'']) + char_lower(c)).len() as int,
        ) == title_spec(a + seq![q, l, '\'']) + char_lower(c),
{
    let x1 = a + seq![q, l];
    assert(x1.drop_last() =~= a + seq![q]);
    assert(x1[x1.len() - 2] == q);
    assert(x1.last() == l);
    assert(title_run(x1).1);
    let x2 = a + seq![q, l, '\''];
    assert(x2.drop_last() =~= x1);
    assert(x2.last() == '\'');
    assert(x2[x2.len() - 2] == l);
    assert(title_run(x2).1);
    assert(a + seq![q, l, '\'', c] + b =~= (a + seq![q, l]) + seq!['\'', c] + b);
    assert((a + seq![q, l]) + seq!['\''] =~= x2);
    lemma_title_after(a + seq![q, l], '\'', c, b);
    assert(title_run(x2).1);
}

} // verus!
