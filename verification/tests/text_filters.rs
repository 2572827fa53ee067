use django_rusty_templates::filters::{
    AddFilter, CutFilter, DivisibleByFilter, EscapeFilter, EscapejsFilter, ForceEscapeFilter,
    JoinFilter, LengthFilter, SafeFilter, TitleFilter, WordcountFilter, WordwrapFilter, YesnoFilter,
};
use django_rusty_templates::render::filters::{
    slug_of_chars,
    addslashes, capfirst, center, conditional_escape, cut, escapejs, join_escaped, slugify, title,
    wordcount, wordwrap, yesno, YesnoValue,
};
use django_rusty_templates::render::resolve::{AddResult, Annotated, DivisibleByError, DivisibleByLeft};
use django_rusty_templates::render::types::{Content, ContentString};
use django_rusty_templates::text::{is_whitespace, split_chars, to_chars};
use django_rusty_templates::types::{Argument, ArgumentType};
use django_rusty_templates::integer::Integer;
use num_bigint::{BigInt, Sign};

fn arg() -> Argument {
    Argument { at: (0, 1), argument_type: ArgumentType::Variable((0, 1)) }
}

fn plain(s: &str) -> ContentString {
    ContentString::String(s.to_string())
}

#[test]
fn addslashes_escapes_backslashes_and_quotes() {
    assert_eq!(addslashes(r#"a\b"c'd"#), r#"a\\b\"c\'d"#);
    assert_eq!(addslashes("plain text"), "plain text");
    assert_eq!(addslashes(""), "");
}

#[test]
fn escapejs_hex_encodes_special_characters() {
    assert_eq!(
        escapejs("<a href='x'>\"y\"</a>"),
        r"\u003Ca href\u003D\u0027x\u0027\u003E\u0022y\u0022\u003C/a\u003E"
    );
    assert_eq!(escapejs("a-b;c`d&e\\"), r"a\u002Db\u003Bc\u0060d\u0026e\u005C");
    assert_eq!(escapejs("\x01\x1f\n"), r"\u0001\u001F\u000A");
    assert_eq!(escapejs("\u{2028}\u{2029}é"), "\\u2028\\u2029é");
}

#[test]
fn escapejs_output_has_no_special_characters() {
    let out = escapejs("'\"<>&=-;`\u{2028}\u{2029}\x00\x07 text");
    for c in out.chars() {
        assert!(!"'\"<>&=-;`\u{2028}\u{2029}".contains(c));
        assert!(c >= ' ');
    }
}

#[test]
fn escapejs_filter_keeps_marking() {
    let r = EscapejsFilter.apply(Some(ContentString::HtmlSafe("<".to_string())));
    assert_eq!(r, ContentString::HtmlSafe(r"\u003C".to_string()));
    assert_eq!(EscapejsFilter.apply(None), plain(""));
}

#[test]
fn cut_removes_every_occurrence() {
    assert_eq!(cut("a;b;c;", ";"), "abc");
    assert_eq!(cut("aabb", "ab"), "ab");
    assert_eq!(cut("banana", "ana"), "bna");
    assert_eq!(cut("text", ""), "text");
    assert_eq!(cut("", "x"), "");
}

#[test]
fn cut_filter_marking() {
    let f = CutFilter::new(arg());
    let r = f.apply(Some(ContentString::HtmlSafe("a&amp;b".to_string())), ";");
    assert_eq!(r, ContentString::HtmlUnsafe("a&ampb".to_string()));
    let r = f.apply(Some(ContentString::HtmlSafe("a b".to_string())), " ");
    assert_eq!(r, ContentString::HtmlSafe("ab".to_string()));
    let r = f.apply(Some(ContentString::HtmlUnsafe("a;b".to_string())), ";");
    assert_eq!(r, ContentString::HtmlUnsafe("ab".to_string()));
    assert_eq!(f.apply(None, ";"), plain(""));
}

#[test]
fn center_counts_bytes_and_places_odd_space() {
    // Field of odd width: the odd space goes to the left.
    assert_eq!(center("ab", 5), "  ab ");
    // Field of even width, value of odd width: the odd space goes to the right.
    assert_eq!(center("abc", 6), " abc  ");
    // `é` is two bytes wide.
    assert_eq!(center("é", 5), "  é ");
    assert_eq!(center("é", 6), "  é  ");
    assert_eq!(center("ab", 6), "  ab  ");
    assert_eq!(center("hello", 5), "hello");
}

#[test]
fn center_output_is_as_wide_as_the_field() {
    for size in 0..20usize {
        let out = center("héllo", size);
        assert_eq!(out.len(), size.max("héllo".len()));
    }
}

#[test]
fn capfirst_upper_cases_first_character() {
    assert_eq!(capfirst("élan"), "Élan");
    assert_eq!(capfirst("ßa"), "SSa");
    assert_eq!(capfirst("1abc"), "1abc");
    assert_eq!(capfirst(""), "");
}

#[test]
fn title_cases_words() {
    assert_eq!(title("hello world"), "Hello World");
    assert_eq!(title("they're bill's friends"), "They're Bill's Friends");
    assert_eq!(title("o'neil"), "O'Neil");
    assert_eq!(title("1st place"), "1st Place");
    assert_eq!(title("HELLO wORLD"), "Hello World");
    assert_eq!(title("élan vital"), "Élan Vital");
    assert_eq!(TitleFilter.apply(None), plain(""));
}

#[test]
fn wordcount_counts_runs_of_non_white_space() {
    assert_eq!(wordcount("  hello   world  "), 2);
    assert_eq!(wordcount(""), 0);
    assert_eq!(wordcount("   \t\n"), 0);
    assert_eq!(wordcount("a\u{3000}b\u{a0}c"), 3);
    assert_eq!(
        WordcountFilter.apply(Some(&plain("one two three"))),
        Content::Int(Integer::from_i64(3))
    );
    assert_eq!(WordcountFilter.apply(None), Content::Int(Integer::from_i64(0)));
}

#[test]
fn white_space_matches_std() {
    for u in 0u32..0x3100 {
        if let Some(c) = char::from_u32(u) {
            assert_eq!(is_whitespace(c), c.is_whitespace(), "{:x}", u);
        }
    }
}

#[test]
fn split_gives_the_pieces() {
    let v = to_chars("a,,b,");
    let pieces: Vec<String> = split_chars(&v, ',').iter().map(|p| p.iter().collect()).collect();
    assert_eq!(pieces, vec!["a", "", "b", ""]);
}

#[test]
fn wordwrap_breaks_lines() {
    assert_eq!(wordwrap("Joel is a slug", 5), "Joel\nis a\nslug");
    assert_eq!(wordwrap("this is a long paragraph of text", 10), "this is a\nlong\nparagraph\nof text");
    assert_eq!(wordwrap("  ab cd", 4), "  ab\ncd");
    assert_eq!(wordwrap("   ", 3), "   ");
    assert_eq!(wordwrap("a\n\nb", 1), "a\n\nb");
    assert_eq!(wordwrap("a  b", 10), "a  b");
    assert_eq!(wordwrap("a  b", 3), "a\nb");
    assert_eq!(wordwrap("a b  ", 10), "a b  ");
    assert_eq!(wordwrap("\u{a0}a", 10), "\u{a0}a");
    assert_eq!(wordwrap("\u{a0}\u{a0}\u{a0}\u{a0}ab cd", 12), "\u{a0}\u{a0}\u{a0}\u{a0}ab\ncd");
    assert_eq!(wordwrap("", 10), "");
    assert_eq!(wordwrap("text\n", 10), "text\n");
    assert_eq!(wordwrap("supercalifragilistic word", 5), "supercalifragilistic\nword");
}

#[test]
fn wordwrap_width_check() {
    let f = WordwrapFilter::new(arg());
    let width_error = |n: i64| {
        f.check_width(Some(&Integer::from_i64(n))).map_err(|e| (e.error, e.at, e.label))
    };
    assert_eq!(width_error(0), Err(("invalid width 0 (must be > 0)".to_string(), (0, 1), "width".to_string())));
    assert_eq!(width_error(-3), Err(("invalid width -3 (must be > 0)".to_string(), (0, 1), "width".to_string())));
    assert_eq!(width_error(5), Ok(()));
    assert!(f.check_width(None).is_ok());
    let r = f.apply(Some(ContentString::HtmlSafe("a b c".to_string())), 2);
    assert_eq!(r, ContentString::HtmlSafe("a\nb\nc".to_string()));
}

#[test]
fn yesno_picks_a_word() {
    assert_eq!(yesno("yes,no,maybe", YesnoValue::Truthy(true)), Some("yes".to_string()));
    assert_eq!(yesno("yes,no,maybe", YesnoValue::Truthy(false)), Some("no".to_string()));
    assert_eq!(yesno("yes,no,maybe", YesnoValue::PyNone), Some("maybe".to_string()));
    assert_eq!(yesno("yes,no,maybe", YesnoValue::Missing), Some("no".to_string()));
    assert_eq!(yesno("yes,no", YesnoValue::PyNone), Some("no".to_string()));
    assert_eq!(yesno("a,b,c,d", YesnoValue::PyNone), Some("c".to_string()));
    assert_eq!(yesno("yes", YesnoValue::Truthy(true)), None);
    assert_eq!(yesno("", YesnoValue::Truthy(true)), None);
    let f = YesnoFilter::new((0, 1), None);
    assert_eq!(f.apply(YesnoValue::Truthy(true), "y,n"), Some(plain("y")));
}

/// The result, or the error's message (quoting "abc" as the rendered
/// value), position and label.
fn divisible(left: DivisibleByLeft, right: Option<i64>) -> Result<bool, (String, (usize, usize), String)> {
    let f = DivisibleByFilter::new((7, 9), Argument { at: (20, 2), argument_type: ArgumentType::Variable((20, 2)) });
    let right = right.map(Integer::from_i64);
    f.apply(&left, right.as_ref()).map_err(|e| (e.error.message("abc"), e.at, e.label))
}

fn err(message: &str, at: (usize, usize)) -> Result<bool, (String, (usize, usize), String)> {
    Err((message.to_string(), at, "here".to_string()))
}

#[test]
fn divisibleby_results_and_errors() {
    assert_eq!(divisible(DivisibleByLeft::Int(Integer::from_i64(21)), Some(7)), Ok(true));
    assert_eq!(divisible(DivisibleByLeft::Int(Integer::from_i64(-21)), Some(7)), Ok(true));
    assert_eq!(divisible(DivisibleByLeft::Int(Integer::from_i64(22)), Some(-7)), Ok(false));
    assert_eq!(divisible(DivisibleByLeft::Int(Integer::from_i64(-22)), Some(-7)), Ok(false));
    assert_eq!(divisible(DivisibleByLeft::Int(Integer::from_i64(0)), Some(3)), Ok(true));
    assert_eq!(
        divisible(DivisibleByLeft::Int(Integer::from_i64(1)), Some(0)),
        err("Invalid divisibility check: cannot divide by zero", (20, 2))
    );
    assert_eq!(
        divisible(DivisibleByLeft::Int(Integer::from_i64(1)), None),
        err("Integer argument expected", (20, 2))
    );
    assert_eq!(
        divisible(DivisibleByLeft::Missing, Some(2)),
        err("invalid literal for int() with base 10: 'None'", (7, 9))
    );
    assert_eq!(
        divisible(DivisibleByLeft::PyNone, Some(2)),
        err("int() argument must be a string, a bytes-like object or a real number, not 'NoneType'", (7, 9))
    );
    assert_eq!(
        divisible(DivisibleByLeft::Other, Some(2)),
        err("invalid literal for int() with base 10: 'abc'", (7, 9))
    );
    let f = DivisibleByFilter::new((0, 1), arg());
    let (sign, digits) =
        BigInt::parse_bytes(b"123456789012345678901234567890", 10).unwrap().to_u32_digits();
    let big = Integer::from_parts(sign == Sign::Minus, digits);
    assert!(matches!(f.apply(&DivisibleByLeft::Int(big), Some(&Integer::from_i64(10))), Ok(true)));
    assert!(matches!(
        f.apply(&DivisibleByLeft::Other, Some(&Integer::from_i64(0))),
        Err(Annotated { error: DivisibleByError::DivisionByZero, .. })
    ));
    assert!(matches!(
        f.apply(&DivisibleByLeft::Missing, None),
        Err(Annotated { error: DivisibleByError::MissingValue, .. })
    ));
}

#[test]
fn escape_and_force_escape() {
    let r = EscapeFilter.apply(Some(&Content::String(plain("<a href=\"x\">'&'</a>"))));
    assert_eq!(
        r,
        ContentString::HtmlSafe("&lt;a href=&quot;x&quot;&gt;&#x27;&amp;&#x27;&lt;/a&gt;".to_string())
    );
    let safe = Content::String(ContentString::HtmlSafe("<b>".to_string()));
    assert_eq!(EscapeFilter.apply(Some(&safe)), ContentString::HtmlSafe("<b>".to_string()));
    assert_eq!(ForceEscapeFilter.apply(Some(&safe)), ContentString::HtmlSafe("&lt;b&gt;".to_string()));
    assert_eq!(
        EscapeFilter.apply(Some(&Content::Int(Integer::from_i64(-5)))),
        ContentString::HtmlSafe("-5".to_string())
    );
    assert_eq!(
        EscapeFilter.apply(Some(&Content::Bool(false))),
        ContentString::HtmlSafe("False".to_string())
    );
    assert_eq!(EscapeFilter.apply(None), ContentString::HtmlSafe(String::new()));
    assert_eq!(conditional_escape(&ContentString::HtmlUnsafe("é<".to_string())), "é&lt;");
}

#[test]
fn join_escapes_unless_safe() {
    let values = vec![plain("<a>"), ContentString::HtmlSafe("<b>".to_string()), plain("c")];
    assert_eq!(join_escaped(&values, &plain(" & ")), "&lt;a&gt; &amp; <b> &amp; c");
    assert_eq!(join_escaped(&values, &ContentString::HtmlSafe("<br>".to_string())), "&lt;a&gt;<br><b><br>c");
    assert_eq!(join_escaped(&vec![], &plain(",")), "");
    let r = JoinFilter::new(arg()).apply_escaped(&vec![plain("x")], &plain(","));
    assert_eq!(r, ContentString::HtmlSafe("x".to_string()));
}

#[test]
fn length_counts_characters() {
    assert_eq!(LengthFilter.apply(Some(&Content::String(plain("héllo")))), Content::Int(Integer::from_i64(5)));
    assert_eq!(LengthFilter.apply(Some(&Content::Int(Integer::from_i64(12345)))), Content::Int(Integer::from_i64(0)));
    assert_eq!(LengthFilter.apply(Some(&Content::Bool(true))), Content::Int(Integer::from_i64(0)));
    assert_eq!(LengthFilter.apply(None), Content::Int(Integer::from_i64(0)));
}

#[test]
fn safe_marks_without_escaping() {
    assert_eq!(SafeFilter.apply(Some(plain("<b>"))), ContentString::HtmlSafe("<b>".to_string()));
    assert_eq!(SafeFilter.apply(None), ContentString::HtmlSafe(String::new()));
    assert_eq!(
        SafeFilter.apply_value(&Content::Int(Integer::from_i64(42))),
        ContentString::HtmlSafe("42".to_string())
    );
    assert_eq!(
        SafeFilter.apply_value(&Content::Bool(true)),
        ContentString::HtmlSafe("True".to_string())
    );
}

#[test]
fn add_sums_integers() {
    let f = AddFilter::new(arg());
    let five = Content::Int(Integer::from_i64(5));
    match f.apply(Some(&Content::Int(Integer::from_i64(2))), &Content::Int(Integer::from_i64(3))) {
        AddResult::Value(v) => assert_eq!(v, five),
        _ => panic!("expected a sum"),
    }
    assert!(matches!(f.apply(None, &five), AddResult::Nothing));
    assert!(matches!(f.apply(Some(&Content::String(plain("a"))), &five), AddResult::Python));
}

#[test]
fn slugify_edges_and_unicode() {
    assert_eq!(slugify("Ünïcödé Text"), "unicode-text");
    assert_eq!(slugify("ﬁne"), "fine");
    assert_eq!(slugify("  --Hello--World--  "), "hello-world");
    assert_eq!(slugify("_private_"), "private");
    assert_eq!(slugify("-_-a_b-_-"), "a_b");
    assert_eq!(slugify("a\tb\nc"), "a-b-c");
    assert_eq!(slugify("€€€"), "");
}

#[test]
fn slugify_is_idempotent_and_well_formed() {
    for s in ["Hello World!", "  a--b__c  ", "_x-", "Ünïcödé", "a - - b", "1 2 3"] {
        let once = slugify(s);
        assert_eq!(slugify(&once), once);
        assert!(once.chars().all(|c| c.is_ascii_lowercase() || c.is_ascii_digit() || c == '_' || c == '-'));
        assert!(!once.starts_with(['-', '_']) && !once.ends_with(['-', '_']));
        assert!(!once.contains("--"));
    }
}

#[test]
fn wordwrap_keeps_words_and_fits_lines() {
    let texts = [
        "The quick brown fox jumps over the lazy dog",
        "  indented line with several words\nand a second line\n\n   \nlast",
        "a  b\tc\u{3000}d é€ long-word-that-does-not-fit-anywhere x y",
    ];
    for text in texts {
        for width in [1usize, 3, 5, 8, 13, 40, 1000] {
            let out = wordwrap(text, width);
            let before: Vec<&str> = text.split_whitespace().collect();
            let after: Vec<&str> = out.split_whitespace().collect();
            assert_eq!(before, after);
            for line in out.split('\n') {
                if line.split_whitespace().count() >= 2 {
                    assert!(line.trim_end().len() <= width, "{:?} at {}", line, width);
                }
            }
            assert_eq!(wordwrap(&out, width), out);
            assert!(out.matches('\n').count() >= text.matches('\n').count());
        }
    }
}

#[test]
fn cut_never_lengthens() {
    for (s, p) in [("aaaa", "aa"), ("abcabc", "bc"), ("x", "xyz"), ("", "")] {
        assert!(cut(s, p).chars().count() <= s.chars().count());
    }
}

#[test]
fn escaped_html_has_no_reserved_characters() {
    let r = conditional_escape(&plain("<'\"&>"));
    assert_eq!(r, "&lt;&#x27;&quot;&amp;&gt;");
    assert!(!r.contains(['<', '>', '"', '\'']));
}

#[test]
fn wordwrap_leaves_plain_text_alone() {
    let text = "  one two three\nfour five\n\n six";
    assert_eq!(wordwrap(text, 100), text);
    assert_eq!(wordwrap("a b", 4), "a b");
    assert_eq!(wordwrap("a  b\t\tc ", 100), "a  b\t\tc ");
    assert_eq!(wordwrap("\u{3000}x\u{a0}\u{a0}y", 100), "\u{3000}x\u{a0}\u{a0}y");
}

#[test]
fn arguments_clone_to_equal_values() {
    let a = Argument { at: (3, 2), argument_type: ArgumentType::Int(Integer::from_i64(-42)) };
    let b = a.clone();
    assert_eq!(a, b);
    let f = django_rusty_templates::filters::DivisibleByFilter::new((1, 2), a);
    assert_eq!(f.clone(), f);
}

#[test]
fn wordwrap_wraps_each_line_on_its_own() {
    for width in [1usize, 3, 6, 20] {
        let (a, b) = ("one  two three", "\u{a0}four five\tsix ");
        assert_eq!(wordwrap(&format!("{a}\n{b}"), width), format!("{}\n{}", wordwrap(a, width), wordwrap(b, width)));
    }
}

#[test]
fn slugify_twice_is_slugify_once() {
    for text in ["Hello, World!", "  _a -- b_ ", "Ünïcödé ﬁle", "a&€%", ""] {
        let once = slugify(text);
        assert_eq!(slugify(&once), once);
        assert_eq!(slug_of_chars(&once.chars().collect()), once);
    }
    assert_eq!(slug_of_chars(&"A b".chars().collect()), "a-b");
}
