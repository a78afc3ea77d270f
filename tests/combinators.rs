use arpx_job_parser::combinators::{
    any_char, either, left, literal, n, one_or_more, optional, pair, right, two_or_more,
    zero_or_more, AnyChar, EndBound,
};
use arpx_job_parser::parser::Parser;
use arpx_job_parser::transform::{and_then, pred};
use arpx_job_parser::whitespace::{whitespace_char, whitespace_wrap};

#[test]
fn test_any_char() -> Result<(), String> {
    let parse = any_char;

    assert_eq!(parse("foo")?, ("oo", 'f'));
    assert_eq!(parse(""), Err(""));
    Ok(())
}

#[test]
fn test_literal() -> Result<(), String> {
    let parser = literal("foo");

    assert_eq!(parser.parse("foo")?, ("", ()));
    assert_eq!(parser.parse("foobar")?, ("bar", ()));
    assert_eq!(parser.parse("bar"), Err("bar"));
    Ok(())
}

#[test]
fn test_map() -> Result<(), String> {
    let parser = arpx_job_parser::transform::map(AnyChar, |result: char| match result {
        'a' => "foo",
        _ => "bar",
    });

    assert_eq!(parser.parse("a")?, ("", "foo"));
    assert_eq!(parser.parse("z")?, ("", "bar"));
    Ok(())
}

#[test]
fn test_and_then() -> Result<(), String> {
    let alphanumeric = AnyChar.pred(|c: &char| c.is_alphanumeric());
    let any_word = n(alphanumeric, 1, EndBound::Unbounded)
        .map(|result: Vec<char>| result.into_iter().collect::<String>());
    let exclamation = left(any_word, literal("!"));

    let parser = and_then(exclamation, |result: String| match result.as_str() {
        "foo" => literal("bar"),
        _ => literal("baz"),
    });

    assert_eq!(parser.parse("foo!bar")?, ("", ()));
    assert_eq!(parser.parse("bar!baz")?, ("", ()));
    assert_eq!(parser.parse("foo!baz"), Err("baz"));
    assert_eq!(parser.parse("bar!bar"), Err("bar"));
    assert_eq!(parser.parse(""), Err(""));
    Ok(())
}

#[test]
fn test_pred() -> Result<(), String> {
    let parser = pred(AnyChar, |c: &char| *c == 'f');

    assert_eq!(parser.parse("foo")?, ("oo", 'f'));
    assert_eq!(parser.parse("bar"), Err("bar"));
    Ok(())
}

#[test]
fn left_test_left() -> Result<(), String> {
    let alphanumeric = AnyChar.pred(|c: &char| c.is_alphanumeric());
    let any_word = n(alphanumeric, 1, EndBound::Unbounded)
        .map(|result: Vec<char>| result.into_iter().collect::<String>());

    let parser = left(any_word, literal("!"));

    assert_eq!(parser.parse("foo!")?, ("", "foo".to_string()));
    assert_eq!(parser.parse("baz"), Err(""));
    Ok(())
}

#[test]
fn test_either() -> Result<(), String> {
    let parser = either(literal("foo"), literal("bar"));

    assert_eq!(parser.parse("foo")?, ("", ()));
    assert_eq!(parser.parse("bar")?, ("", ()));
    assert_eq!(parser.parse("baz"), Err("baz"));
    Ok(())
}

#[test]
fn test_n_or_more() -> Result<(), String> {
    let parser = n(literal("foo"), 3, EndBound::Unbounded);

    assert_eq!(parser.parse("foofoofoofoo")?, ("", vec![(), (), (), ()]));
    assert_eq!(parser.parse("foofoofoo")?, ("", vec![(), (), ()]));
    assert_eq!(parser.parse("foofoo"), Err(""));
    assert_eq!(parser.parse("bar"), Err("bar"));
    assert_eq!(parser.parse(""), Err(""));
    Ok(())
}

#[test]
fn test_up_to_n() -> Result<(), String> {
    let parser = n(literal("foo"), 0, EndBound::Excluded(3));

    assert_eq!(parser.parse("foo")?, ("", vec![()]));
    assert_eq!(parser.parse("foofoo")?, ("", vec![(), ()]));
    assert_eq!(parser.parse("foofoofoo")?, ("", vec![(), (), ()]));
    assert_eq!(parser.parse("foofoofoofoo")?, ("foo", vec![(), (), ()]));
    assert_eq!(parser.parse("bar")?, ("bar", vec![]));
    assert_eq!(parser.parse("")?, ("", vec![]));
    Ok(())
}

#[test]
fn test_up_to_and_including_n() -> Result<(), String> {
    let parser = n(literal("foo"), 0, EndBound::Included(3));

    assert_eq!(parser.parse("foo")?, ("", vec![()]));
    assert_eq!(parser.parse("foofoo")?, ("", vec![(), ()]));
    assert_eq!(parser.parse("foofoofoo")?, ("", vec![(), (), ()]));
    assert_eq!(parser.parse("foofoofoofoo")?, ("", vec![(), (), (), ()]));
    assert_eq!(parser.parse("bar")?, ("bar", vec![]));
    assert_eq!(parser.parse("")?, ("", vec![]));
    Ok(())
}

#[test]
fn test_one_or_more() -> Result<(), String> {
    let parser = one_or_more(literal("foo"));

    assert_eq!(parser.parse("foofoofoo")?, ("", vec![(), (), ()]));
    assert_eq!(parser.parse("bar"), Err("bar"));
    assert_eq!(parser.parse(""), Err(""));
    Ok(())
}

#[test]
fn test_two_or_more() -> Result<(), String> {
    let parser = two_or_more(literal("foo"));

    assert_eq!(parser.parse("foofoofoo")?, ("", vec![(), (), ()]));
    assert_eq!(parser.parse("foofoo")?, ("", vec![(), ()]));
    assert_eq!(parser.parse("foo"), Err(""));
    assert_eq!(parser.parse("bar"), Err("bar"));
    assert_eq!(parser.parse(""), Err(""));
    Ok(())
}

#[test]
fn test_zero_or_more() -> Result<(), String> {
    let parser = zero_or_more(literal("foo"));

    assert_eq!(parser.parse("foofoofoo")?, ("", vec![(), (), ()]));
    assert_eq!(parser.parse("bar")?, ("bar", vec![]));
    assert_eq!(parser.parse("")?, ("", vec![]));
    Ok(())
}

#[test]
fn test_optional() -> Result<(), String> {
    let parser = optional(literal("foo"));

    assert_eq!(parser.parse("foo")?, ("", Some(())));
    assert_eq!(parser.parse("bar")?, ("bar", None));
    assert_eq!(parser.parse("")?, ("", None));
    Ok(())
}

#[test]
fn test_pair() -> Result<(), String> {
    let alphanumeric = AnyChar.pred(|c: &char| c.is_alphanumeric());
    let any_word = one_or_more(alphanumeric)
        .map(|result: Vec<char>| result.into_iter().collect::<String>());

    let parser = pair(literal("foo"), any_word);

    assert_eq!(parser.parse("foobar")?, ("", ((), "bar".to_string())));
    assert_eq!(parser.parse("baz"), Err("baz"));
    Ok(())
}

#[test]
fn test_right() -> Result<(), String> {
    let alphanumeric = AnyChar.pred(|c: &char| c.is_alphanumeric());
    let any_word = one_or_more(alphanumeric)
        .map(|result: Vec<char>| result.into_iter().collect::<String>());

    let parser = right(literal("foo"), any_word);

    assert_eq!(parser.parse("foobar")?, ("", "bar".to_string()));
    assert_eq!(parser.parse("baz"), Err("baz"));
    Ok(())
}

#[test]
fn whitespace_test_whitespace_wrap() -> Result<(), String> {
    let parser = whitespace_wrap(literal("foo"));

    assert_eq!(parser.parse("foo")?, ("", ()));
    assert_eq!(parser.parse("    foo     ")?, ("", ()));
    assert_eq!(
        parser.parse(
            r#"
                foo
            "#
        )?,
        ("", ())
    );
    assert_eq!(parser.parse("    foo        bar")?, ("bar", ()));
    assert_eq!(parser.parse("   bar   "), Err("bar   "));
    Ok(())
}

#[test]
fn whitespace_test_whitespace_char() -> Result<(), String> {
    let parser = whitespace_char();

    assert_eq!(parser.parse(" ")?, ("", ' '));
    assert_eq!(parser.parse("f"), Err("f"));
    assert_eq!(parser.parse(""), Err(""));
    Ok(())
}

#[test]
fn any_char_reads_a_multibyte_character() -> Result<(), String> {
    assert_eq!(any_char("éa")?, ("a", 'é'));
    assert_eq!(literal("é").parse("éé")?, ("é", ()));
    Ok(())
}

#[test]
fn and_then_as_a_method_picks_the_next_parser() -> Result<(), String> {
    let parser = AnyChar.and_then(|c: char| if c == 'x' { literal("1") } else { literal("2") });

    assert_eq!(parser.parse("x1rest")?, ("rest", ()));
    assert_eq!(parser.parse("y2")?, ("", ()));
    assert_eq!(parser.parse("x2"), Err("2"));
    Ok(())
}
