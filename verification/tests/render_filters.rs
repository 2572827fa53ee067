use django_rusty_templates::filters::{
    AddSlashesFilter, CapfirstFilter, CenterFilter, DefaultFilter, LowerFilter, SafeFilter,
    SlugifyFilter, UpperFilter,
};
use django_rusty_templates::render::types::{Content, ContentString};
use django_rusty_templates::types::{Argument, ArgumentType};
use django_rusty_templates::integer::Integer;

fn text(s: &str) -> Content {
    Content::String(ContentString::String(s.to_string()))
}

fn raw(c: &Content) -> String {
    match c {
        Content::String(s) => s.as_raw().clone(),
        Content::Int(n) => n.to_decimal(),
        Content::Bool(b) => if *b { "True".to_string() } else { "False".to_string() },
    }
}

fn bryony_default() -> DefaultFilter {
    DefaultFilter::new(
        Argument { at: (16, 8), argument_type: ArgumentType::Text((17, 6)) },
        (8, 7),
    )
}

fn slug_of(value: Option<Content>) -> String {
    SlugifyFilter.apply(value).into_raw()
}

#[test]
fn test_render_filter() {
    let filter = bryony_default();
    let rendered = filter.apply(Some(text("Lily")), Some(text("Bryony"))).unwrap();
    assert_eq!(raw(&rendered), "Lily");
}

#[test]
fn test_render_filter_slugify_happy_path() {
    assert_eq!(slug_of(Some(text("hello world"))), "hello-world");
}

#[test]
fn test_render_filter_slugify_spaces_omitted() {
    assert_eq!(slug_of(Some(text(" hello world"))), "hello-world");
}

#[test]
fn test_render_filter_slugify_special_characters_omitted() {
    assert_eq!(slug_of(Some(text("a&€%"))), "a");
}

#[test]
fn test_render_filter_slugify_multiple_spaces_inside_becomes_single() {
    assert_eq!(slug_of(Some(text("a & b"))), "a-b");
}

#[test]
fn test_render_filter_slugify_integer() {
    let value = DefaultFilter::new(
        Argument { at: (15, 1), argument_type: ArgumentType::Int(Integer::from_i64(1)) },
        (7, 7),
    )
    .apply(None, Some(Content::Int(Integer::from_i64(1))));
    assert_eq!(slug_of(value), "1");
}

#[test]
fn test_render_filter_slugify_rust_string() {
    let value = bryony_default().apply(None, Some(text("hello world")));
    assert_eq!(slug_of(value), "hello-world");
}

#[test]
fn test_render_filter_slugify_safe_string() {
    let value = bryony_default().apply(None, Some(text("hello world")));
    let safe = match value {
        Some(Content::String(s)) => SafeFilter.apply(Some(s)),
        _ => panic!("expected text"),
    };
    let slug = SlugifyFilter.apply(Some(Content::String(safe)));
    assert!(matches!(slug, ContentString::HtmlSafe(_)));
    assert_eq!(slug.into_raw(), "hello-world");
}

#[test]
fn test_render_filter_slugify_safe_string_from_rust_treated_as_py() {
    // A Python `SafeString` is slugified from its `str()`.
    let value = ContentString::HtmlSafe("a &amp; b".to_string());
    assert_eq!(slug_of(Some(Content::String(value))), "a-amp-b");
}

#[test]
fn test_render_filter_slugify_non_existing_variable() {
    assert_eq!(slug_of(None), "");
}

#[test]
fn test_render_filter_addslashes_single() {
    let rendered = AddSlashesFilter.apply(Some(ContentString::String("'hello'".to_string())));
    assert_eq!(rendered.into_raw(), r"\'hello\'");
}

#[test]
fn test_render_filter_capfirst() {
    assert_eq!(CapfirstFilter.apply(Some("hello world")).into_raw(), "Hello world");
    assert_eq!(CapfirstFilter.apply(Some("")).into_raw(), "");
    assert_eq!(CapfirstFilter.apply(None).into_raw(), "");
}

fn center_filter(at: (usize, usize)) -> CenterFilter {
    CenterFilter::new(Argument { at, argument_type: ArgumentType::Text((at.0 + 1, at.1 - 2)) })
}

#[test]
fn test_render_filter_center() {
    let filter = center_filter((14, 4));
    assert_eq!(filter.apply(Some("hello"), 11).into_raw(), "   hello   ");
    assert_eq!(filter.apply(Some("django"), 15).into_raw(), "     django    ");
    assert_eq!(filter.apply(Some("django"), 1).into_raw(), "django");
}

#[test]
fn test_render_filter_center_no_variable() {
    assert_eq!(center_filter((14, 4)).apply(None, 11).into_raw(), "");
}

#[test]
fn test_render_filter_center_on_0() {
    assert_eq!(center_filter((14, 3)).apply(Some("hello"), 0).into_raw(), "hello");
}

#[test]
fn test_render_filter_default() {
    let rendered = bryony_default().apply(None, Some(text("Bryony"))).unwrap();
    assert_eq!(raw(&rendered), "Bryony");
}

#[test]
fn test_render_filter_default_integer() {
    let filter = DefaultFilter::new(
        Argument { at: (17, 2), argument_type: ArgumentType::Int(Integer::from_i64(12)) },
        (9, 7),
    );
    let rendered = filter.apply(None, Some(Content::Int(Integer::from_i64(12)))).unwrap();
    assert_eq!(raw(&rendered), "12");
}

#[test]
fn test_render_filter_default_variable() {
    let filter = DefaultFilter::new(
        Argument { at: (16, 2), argument_type: ArgumentType::Variable((16, 2)) },
        (8, 7),
    );
    let rendered = filter.apply(None, Some(text("Lily"))).unwrap();
    assert_eq!(raw(&rendered), "Lily");
}

#[test]
fn test_render_filter_lower() {
    let rendered = LowerFilter.apply(Some(ContentString::String("Lily".to_string())));
    assert_eq!(rendered.into_raw(), "lily");
}

#[test]
fn test_render_filter_lower_missing_left() {
    assert_eq!(LowerFilter.apply(None).into_raw(), "");
}

#[test]
fn test_render_chained_filters() {
    let value = bryony_default().apply(None, Some(text("Bryony")));
    let lowered = match value {
        Some(Content::String(s)) => LowerFilter.apply(Some(s)),
        _ => panic!("expected text"),
    };
    assert_eq!(lowered.into_raw(), "bryony");
}

#[test]
fn test_render_filter_upper() {
    let rendered = UpperFilter.apply(Some(ContentString::String("Foo".to_string())));
    assert_eq!(rendered.into_raw(), "FOO");
}

#[test]
fn test_render_filter_upper_missing_left() {
    assert_eq!(UpperFilter.apply(None).into_raw(), "");
}
