//! What each filter resolves its value to, for values that are text,
//! integers or booleans.
use vstd::prelude::*;
use crate::integer::{decimal, truncated_rem, Integer};
use crate::filters::{
    AddFilter, AddSlashesFilter, CapfirstFilter, CenterFilter, CutFilter, DefaultFilter,
    DefaultIfNoneFilter, DivisibleByFilter, EscapeFilter, EscapejsFilter, ForceEscapeFilter,
    JoinFilter, LengthFilter, LowerFilter, SafeFilter, SlugifyFilter, TitleFilter, UpperFilter,
    WordcountFilter, WordwrapFilter, YesnoFilter,
};
use crate::render::filters::{
    addslashes, addslashes_spec, capfirst, capfirst_spec, center, center_spec, conditional_escape,
    conditional_escape_spec, cut, escapejs, escapejs_spec, join_escaped, join_escaped_spec,
    remove_all, slugify, slugify_spec, title, title_spec, wordcount, wordwrap,
    wordwrap_spec, yesno, yesno_choice, YesnoValue,
};
use crate::render::types::{Content, ContentString};
use crate::types::At;
use crate::text::{push_str, split_char, to_chars, utf8_len, words};
use crate::unicode::{
    encode_quoted_attribute, html_escape, str_lower, str_to_lowercase, str_to_uppercase, str_upper,
};

verus! {

broadcast use vstd::string::group_string_axioms;

/// A string holding the text of a literal.
fn text_of(s: &str) -> (r: String)
    ensures
        r@ == s@,
{
    s.to_string()
}

/// How Python writes a boolean: `True` or `False`.
pub open spec fn python_bool(b: bool) -> Seq<char> {
    if b {
        "True"@
    } else {
        "False"@
    }
}

/// Text that applies `f` to the raw text of `variable` and keeps its
/// marking, or empty plain text for a missing value.
pub open spec fn mapped(variable: Option<ContentString>, r: ContentString, text: Seq<char>) -> bool {
    match variable {
        None => r is String && r.raw() == Seq::<char>::empty(),
        Some(c) => r.same_kind(&c) && r.raw() == text,
    }
}

impl AddSlashesFilter {
    /// Backslashes before backslashes and quotes.
    pub fn apply(&self, variable: Option<ContentString>) -> (r: ContentString)
        ensures
            mapped(
                variable,
                r,
                match variable {
                    Some(c) => addslashes_spec(c.raw()),
                    None => Seq::empty(),
                },
            ),
    {
        match variable {
            Some(content) => {
                let text = addslashes(content.as_raw().as_str());
                content.map_content(text)
            },
            None => ContentString::empty(),
        }
    }
}

/// What `add` makes of its operands.
pub enum AddResult {
    /// There was no value: nothing is rendered.
    Nothing,
    /// The sum of two integers.
    Value(Content),
    /// Operands that are not both integers: Python's `+` decides.
    Python,
}

impl AddFilter {
    /// The sum of two integers; no result for a missing value.
    pub fn apply(&self, variable: Option<&Content>, right: &Content) -> (r: AddResult)
        ensures
            variable is None ==> r is Nothing,
            match (variable, *right) {
                (Some(Content::Int(a)), Content::Int(b)) => r matches AddResult::Value(
                    Content::Int(n),
                ) && n.value() == a.value() + b.value(),
                (Some(_), _) => r is Python,
                _ => true,
            },
    {
        match variable {
            None => AddResult::Nothing,
            Some(Content::Int(a)) => match right {
                Content::Int(b) => AddResult::Value(Content::Int(a.plus(b))),
                _ => AddResult::Python,
            },
            Some(_) => AddResult::Python,
        }
    }
}

impl CapfirstFilter {
    /// The rendered value with its first character in upper case.
    pub fn apply(&self, rendered: Option<&str>) -> (r: ContentString)
        ensures
            r is String,
            r.raw() == match rendered {
                Some(s) => capfirst_spec(s@),
                None => Seq::empty(),
            },
    {
        match rendered {
            Some(s) => ContentString::String(capfirst(s)),
            None => ContentString::empty(),
        }
    }
}

impl CenterFilter {
    /// The rendered value centred in a field of `size` bytes.
    pub fn apply(&self, rendered: Option<&str>, size: usize) -> (r: ContentString)
        requires
            rendered matches Some(s) ==> utf8_len(s@) <= usize::MAX,
        ensures
            r is String,
            r.raw() == match rendered {
                Some(s) => center_spec(s@, size as int),
                None => Seq::empty(),
            },
    {
        match rendered {
            Some(s) => ContentString::String(center(s, size)),
            None => ContentString::empty(),
        }
    }
}

impl CutFilter {
    /// The value with every occurrence of `arg` removed. Text safe as HTML
    /// stays so, unless `arg` is `;`: removing semicolons can break
    /// entities.
    pub fn apply(&self, variable: Option<ContentString>, arg: &str) -> (r: ContentString)
        ensures
            match variable {
                None => r is String && r.raw() == Seq::<char>::empty(),
                Some(c) => r.raw() == remove_all(c.raw(), arg@) && match c {
                    ContentString::HtmlSafe(_) => if arg@ == ";"@ {
                        r is HtmlUnsafe
                    } else {
                        r is HtmlSafe
                    },
                    _ => r.same_kind(&c),
                },
            },
    {
        match variable {
            None => ContentString::empty(),
            Some(ContentString::String(s)) => ContentString::String(cut(s.as_str(), arg)),
            Some(ContentString::HtmlSafe(s)) => {
                let text = cut(s.as_str(), arg);
                let v = to_chars(arg);
                proof {
                    reveal_strlit(";");
                }
                if v.len() == 1 && v[0] == ';' {
                    assert(arg@ =~= ";"@);
                    ContentString::HtmlUnsafe(text)
                } else {
                    assert(arg@ != ";"@);
                    ContentString::HtmlSafe(text)
                }
            },
            Some(ContentString::HtmlUnsafe(s)) => ContentString::HtmlUnsafe(cut(s.as_str(), arg)),
        }
    }
}

impl DefaultFilter {
    /// The value when it is true, else the argument.
    pub fn apply(&self, variable: Option<Content>, argument: Option<Content>) -> (r: Option<
        Content,
    >)
        ensures
            match variable {
                Some(v) => if v.truthy() {
                    r == Some(v)
                } else {
                    r == argument
                },
                None => r == argument,
            },
            variable matches Some(Content::Int(n)) ==> r == if n.value() != 0 {
                variable
            } else {
                argument
            },
    {
        match variable {
            Some(left) => if left.to_bool() {
                Some(left)
            } else {
                argument
            },
            None => argument,
        }
    }
}

impl DefaultIfNoneFilter {
    /// The value itself, or empty text when there is none. (Python's `None`
    /// is replaced by the argument where Python values are handled.)
    pub fn apply(&self, variable: Option<Content>) -> (r: Content)
        ensures
            match variable {
                Some(v) => r == v,
                None => r matches Content::String(s) && s is String && s.raw() == Seq::<
                    char,
                >::empty(),
            },
    {
        match variable {
            Some(left) => left,
            None => Content::String(ContentString::empty()),
        }
    }
}

/// The value that `divisibleby` tests.
pub enum DivisibleByLeft {
    /// No value at all.
    Missing,
    /// Python's `None`.
    PyNone,
    /// An integer.
    Int(Integer),
    /// Any other value.
    Other,
}

/// Why `divisibleby` fails, as the Python errors it raises.
pub enum DivisibleByError {
    /// `ValueError` for a missing value.
    MissingValue,
    /// `TypeError` for `None`.
    NoneValue,
    /// `TypeError` for an argument that is not an integer.
    ArgumentNotInteger,
    /// `ZeroDivisionError` for an argument of zero.
    DivisionByZero,
    /// `ValueError` for a value that is not an integer; its message quotes
    /// the value as it renders.
    InvalidLiteral,
}

/// An error with the place in the template it points at and the label
/// shown there.
pub struct Annotated<E> {
    pub error: E,
    pub at: At,
    pub label: String,
}

/// "invalid literal for int() with base 10: '<value>'"
pub open spec fn invalid_literal(value: Seq<char>) -> Seq<char> {
    "invalid literal for int() with base 10: '"@ + value + "'"@
}

/// An error pointing at `at`, labelled "here".
fn here<E>(error: E, at: At) -> (r: Annotated<E>)
    ensures
        r.error == error,
        r.at == at,
        r.label@ == "here"@,
{
    Annotated { error, at, label: text_of("here") }
}

impl DivisibleByError {
    /// The message of the error; `rendered` is the value as it renders,
    /// which only the error for a value that is not an integer quotes.
    pub open spec fn message_spec(&self, rendered: Seq<char>) -> Seq<char> {
        match self {
            DivisibleByError::MissingValue => invalid_literal("None"@),
            DivisibleByError::NoneValue =>
                "int() argument must be a string, a bytes-like object or a real number, not 'NoneType'"@,
            DivisibleByError::ArgumentNotInteger => "Integer argument expected"@,
            DivisibleByError::DivisionByZero =>
                "Invalid divisibility check: cannot divide by zero"@,
            DivisibleByError::InvalidLiteral => invalid_literal(rendered),
        }
    }

    /// The message that the Python error carries.
    pub fn message(&self, rendered: &str) -> (r: String)
        ensures
            r@ == self.message_spec(rendered@),
    {
        match self {
            DivisibleByError::MissingValue => {
                let mut m = text_of("invalid literal for int() with base 10: '");
                push_str(&mut m, "None");
                push_str(&mut m, "'");
                m
            },
            DivisibleByError::NoneValue => text_of(
                "int() argument must be a string, a bytes-like object or a real number, not 'NoneType'",
            ),
            DivisibleByError::ArgumentNotInteger => text_of("Integer argument expected"),
            DivisibleByError::DivisionByZero => text_of(
                "Invalid divisibility check: cannot divide by zero",
            ),
            DivisibleByError::InvalidLiteral => {
                let mut m = text_of("invalid literal for int() with base 10: '");
                push_str(&mut m, rendered);
                push_str(&mut m, "'");
                m
            },
        }
    }
}

/// `d` divides `n`.
pub open spec fn divides(d: int, n: int) -> bool {
    n % (if d < 0 {
        -d
    } else {
        d
    }) == 0
}

/// The remainder of truncated division is zero exactly when the divisor
/// divides the dividend.
proof fn lemma_truncated_rem_zero(a: int, b: int)
    requires
        b != 0,
    ensures
        (truncated_rem(a, b) == 0) == divides(b, a),
{
    let m = if b < 0 {
        -b
    } else {
        b
    };
    if a < 0 {
        vstd::arithmetic::div_mod::lemma_fundamental_div_mod(-a, m);
        vstd::arithmetic::div_mod::lemma_fundamental_div_mod(a, m);
        if (-a) % m == 0 {
            vstd::arithmetic::div_mod::lemma_mod_multiples_basic(-((-a) / m), m);
            assert(a == (-((-a) / m)) * m) by (nonlinear_arith)
                requires
                    -a == m * ((-a) / m),
            ;
        }
        if a % m == 0 {
            vstd::arithmetic::div_mod::lemma_mod_multiples_basic(-(a / m), m);
            assert(-a == (-(a / m)) * m) by (nonlinear_arith)
                requires
                    a == m * (a / m),
            ;
        }
    }
}

impl DivisibleByFilter {
    /// Whether the value is divisible by the argument (`right`, when the
    /// argument is an integer), or the error that Python would raise, with
    /// where it points: the filter itself for a bad value, the argument for
    /// a bad argument, labelled "here". A value that is neither an integer
    /// nor `None` is rendered for its message only once this has failed.
    pub fn apply(&self, left: &DivisibleByLeft, right: Option<&Integer>) -> (r: Result<
        bool,
        Annotated<DivisibleByError>,
    >)
        ensures
            r matches Err(e) ==> e.label@ == "here"@,
            match *left {
                DivisibleByLeft::Missing => r matches Err(e) && e.error is MissingValue && e.at
                    == self.at,
                DivisibleByLeft::PyNone => r matches Err(e) && e.error is NoneValue && e.at
                    == self.at,
                _ => match right {
                    None => r matches Err(e) && e.error is ArgumentNotInteger && e.at
                        == self.argument.at,
                    Some(d) => if d.value() == 0 {
                        r matches Err(e) && e.error is DivisionByZero && e.at == self.argument.at
                    } else {
                        match *left {
                            DivisibleByLeft::Int(n) => r == Ok::<
                                bool,
                                Annotated<DivisibleByError>,
                            >(divides(d.value(), n.value())),
                            _ => r matches Err(e) && e.error is InvalidLiteral && e.at == self.at,
                        }
                    },
                },
            },
    {
        match left {
            DivisibleByLeft::Missing => Err(here(DivisibleByError::MissingValue, self.at)),
            DivisibleByLeft::PyNone => Err(here(DivisibleByError::NoneValue, self.at)),
            _ => {
                let d = match right {
                    Some(d) => d,
                    None => {
                        return Err(here(DivisibleByError::ArgumentNotInteger, self.argument.at));
                    },
                };
                if d.is_zero() {
                    return Err(here(DivisibleByError::DivisionByZero, self.argument.at));
                }
                match left {
                    DivisibleByLeft::Int(n) => {
                        let rem = n.rem(d);
                        let z = rem.is_zero();
                        proof {
                            lemma_truncated_rem_zero(n.value(), d.value());
                        }
                        Ok(z)
                    },
                    _ => Err(here(DivisibleByError::InvalidLiteral, self.at)),
                }
            },
        }
    }
}

impl EscapeFilter {
    /// The value as text safe for HTML: text not yet safe is escaped,
    /// integers in decimal, booleans as `True` or `False`.
    pub fn apply(&self, variable: Option<&Content>) -> (r: ContentString)
        ensures
            r is HtmlSafe,
            r.raw() == match variable {
                None => Seq::<char>::empty(),
                Some(Content::String(c)) => conditional_escape_spec(*c),
                Some(Content::Int(n)) => decimal(n.value()),
                Some(Content::Bool(b)) => python_bool(*b),
            },
    {
        let text = match variable {
            None => String::new(),
            Some(Content::String(c)) => conditional_escape(c),
            Some(Content::Int(n)) => n.to_decimal(),
            Some(Content::Bool(b)) => if *b {
                text_of("True")
            } else {
                text_of("False")
            },
        };
        ContentString::HtmlSafe(text)
    }
}

impl ForceEscapeFilter {
    /// Like `escape`, but text already safe as HTML is escaped again.
    pub fn apply(&self, variable: Option<&Content>) -> (r: ContentString)
        ensures
            r is HtmlSafe,
            r.raw() == match variable {
                None => Seq::<char>::empty(),
                Some(Content::String(c)) => html_escape(c.raw()),
                Some(Content::Int(n)) => decimal(n.value()),
                Some(Content::Bool(b)) => python_bool(*b),
            },
    {
        match variable {
            Some(Content::String(c)) => ContentString::HtmlSafe(
                encode_quoted_attribute(c.as_raw().as_str()),
            ),
            _ => EscapeFilter.apply(variable),
        }
    }
}

impl EscapejsFilter {
    /// The value with the characters that matter to JavaScript hex encoded.
    pub fn apply(&self, variable: Option<ContentString>) -> (r: ContentString)
        ensures
            mapped(
                variable,
                r,
                match variable {
                    Some(c) => escapejs_spec(c.raw()),
                    None => Seq::empty(),
                },
            ),
    {
        match variable {
            Some(content) => {
                let text = escapejs(content.as_raw().as_str());
                content.map_content(text)
            },
            None => ContentString::empty(),
        }
    }
}

impl JoinFilter {
    /// The values joined with the argument, all escaped unless already
    /// safe: what `join` renders with autoescaping on.
    pub fn apply_escaped(&self, values: &Vec<ContentString>, separator: &ContentString) -> (r:
        ContentString)
        ensures
            r is HtmlSafe,
            r.raw() == join_escaped_spec(values@, *separator),
    {
        ContentString::HtmlSafe(join_escaped(values, separator))
    }
}

impl LengthFilter {
    /// The number of characters of text; zero for integers, booleans and a
    /// missing value.
    pub fn apply(&self, variable: Option<&Content>) -> (r: Content)
        ensures
            r matches Content::Int(n) && n.value() == match variable {
                Some(Content::String(c)) => c.raw().len() as int,
                _ => 0,
            },
    {
        let len: usize = match variable {
            Some(Content::String(c)) => to_chars(c.as_raw().as_str()).len(),
            _ => 0,
        };
        Content::Int(Integer::from_usize(len))
    }
}

impl LowerFilter {
    /// The value in lower case.
    pub fn apply(&self, variable: Option<ContentString>) -> (r: ContentString)
        ensures
            mapped(
                variable,
                r,
                match variable {
                    Some(c) => str_lower(c.raw()),
                    None => Seq::empty(),
                },
            ),
    {
        match variable {
            Some(content) => {
                let text = str_to_lowercase(content.as_raw().as_str());
                content.map_content(text)
            },
            None => ContentString::empty(),
        }
    }
}

impl SafeFilter {
    /// The value marked safe as HTML, without escaping.
    pub fn apply(&self, variable: Option<ContentString>) -> (r: ContentString)
        ensures
            r is HtmlSafe,
            r.raw() == match variable {
                Some(c) => c.raw(),
                None => Seq::empty(),
            },
    {
        match variable {
            Some(content) => ContentString::HtmlSafe(content.into_raw()),
            None => ContentString::HtmlSafe(String::new()),
        }
    }

    /// An integer or a boolean marked safe: its decimal form, or `True` or
    /// `False`.
    pub fn apply_value(&self, variable: &Content) -> (r: ContentString)
        ensures
            r is HtmlSafe,
            r.raw() == match *variable {
                Content::String(c) => c.raw(),
                Content::Int(n) => decimal(n.value()),
                Content::Bool(b) => python_bool(b),
            },
    {
        match variable {
            Content::String(c) => ContentString::HtmlSafe(
                text_of(c.as_raw().as_str()),
            ),
            Content::Int(n) => ContentString::HtmlSafe(n.to_decimal()),
            Content::Bool(b) => ContentString::HtmlSafe(
                if *b {
                    text_of("True")
                } else {
                    text_of("False")
                },
            ),
        }
    }
}

impl SlugifyFilter {
    /// Text slugified with its marking kept; an integer in decimal; a
    /// boolean as `true` or `false`.
    pub fn apply(&self, variable: Option<Content>) -> (r: ContentString)
        ensures
            match variable {
                None => r is String && r.raw() == Seq::<char>::empty(),
                Some(Content::String(c)) => r.same_kind(&c) && r.raw() == slugify_spec(c.raw()),
                Some(Content::Int(n)) => r is String && r.raw() == decimal(n.value()),
                Some(Content::Bool(b)) => r is String && r.raw() == if b {
                    "true"@
                } else {
                    "false"@
                },
            },
    {
        match variable {
            None => ContentString::empty(),
            Some(Content::String(content)) => {
                let text = slugify(content.as_raw().as_str());
                content.map_content(text)
            },
            Some(Content::Int(n)) => ContentString::String(n.to_decimal()),
            Some(Content::Bool(b)) => ContentString::String(
                if b {
                    text_of("true")
                } else {
                    text_of("false")
                },
            ),
        }
    }
}

impl TitleFilter {
    /// The value in title case.
    pub fn apply(&self, variable: Option<ContentString>) -> (r: ContentString)
        ensures
            mapped(
                variable,
                r,
                match variable {
                    Some(c) => title_spec(c.raw()),
                    None => Seq::empty(),
                },
            ),
    {
        match variable {
            Some(content) => {
                let text = title(content.as_raw().as_str());
                content.map_content(text)
            },
            None => ContentString::empty(),
        }
    }
}

impl UpperFilter {
    /// The value in upper case.
    pub fn apply(&self, variable: Option<ContentString>) -> (r: ContentString)
        ensures
            mapped(
                variable,
                r,
                match variable {
                    Some(c) => str_upper(c.raw()),
                    None => Seq::empty(),
                },
            ),
    {
        match variable {
            Some(content) => {
                let text = str_to_uppercase(content.as_raw().as_str());
                content.map_content(text)
            },
            None => ContentString::empty(),
        }
    }
}

impl WordcountFilter {
    /// The number of words of the value; zero for a missing value.
    pub fn apply(&self, variable: Option<&ContentString>) -> (r: Content)
        ensures
            r matches Content::Int(n) && n.value() == match variable {
                Some(c) => words(c.raw()).len() as int,
                None => 0,
            },
    {
        let count = match variable {
            Some(c) => wordcount(c.as_raw().as_str()),
            None => 0,
        };
        Content::Int(Integer::from_usize(count))
    }
}

/// "invalid width <n> (must be > 0)"
pub open spec fn invalid_width(n: int) -> Seq<char> {
    "invalid width "@ + decimal(n) + " (must be > 0)"@
}

impl WordwrapFilter {
    /// Refuses an integer width that an `isize` holds and that is not
    /// positive, with the message of the `ValueError` raised, pointing at
    /// the argument with the label "width".
    pub fn check_width(&self, width: Option<&Integer>) -> (r: Result<(), Annotated<String>>)
        ensures
            match width {
                Some(w) => if isize::MIN <= w.value() <= 0 {
                    r matches Err(e) && e.error@ == invalid_width(w.value()) && e.at
                        == self.argument.at && e.label@ == "width"@
                } else {
                    r is Ok
                },
                None => r is Ok,
            },
    {
        match width {
            Some(w) => match w.to_isize() {
                Some(n) => if n <= 0 {
                    let mut m = text_of("invalid width ");
                    let digits = w.to_decimal();
                    push_str(&mut m, digits.as_str());
                    push_str(&mut m, " (must be > 0)");
                    Err(Annotated { error: m, at: self.argument.at, label: text_of("width") })
                } else {
                    Ok(())
                },
                None => Ok(()),
            },
            None => Ok(()),
        }
    }

    /// The value word-wrapped at `width` bytes, its marking kept.
    pub fn apply(&self, variable: Option<ContentString>, width: usize) -> (r: ContentString)
        requires
            variable matches Some(c) ==> utf8_len(c.raw()) <= usize::MAX,
        ensures
            mapped(
                variable,
                r,
                match variable {
                    Some(c) => wordwrap_spec(c.raw(), width as int),
                    None => Seq::empty(),
                },
            ),
    {
        match variable {
            Some(content) => {
                let text = wordwrap(content.as_raw().as_str(), width);
                content.map_content(text)
            },
            None => ContentString::empty(),
        }
    }
}

impl YesnoFilter {
    /// The comma-separated word of `arg` that stands for the value; `None`
    /// when `arg` has fewer than two words and the value is kept as it is.
    pub fn apply(&self, variable: YesnoValue, arg: &str) -> (r: Option<ContentString>)
        ensures
            split_char(arg@, ',').len() < 2 ==> r is None,
            split_char(arg@, ',').len() >= 2 ==> (r matches Some(c) && c is String && c.raw()
                == yesno_choice(split_char(arg@, ','), variable)),
    {
        match yesno(arg, variable) {
            Some(s) => Some(ContentString::String(s)),
            None => None,
        }
    }
}

} // verus!
