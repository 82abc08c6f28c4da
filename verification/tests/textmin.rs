use wgsl_minifier::minify_wgsl_source;
use wgsl_minifier::text::{minify_whitespace, remove_trailing_commas};
use wgsl_minifier::parens::remove_double_parens;

#[test]
fn trailing_comma_before_paren_is_removed() {
    assert_eq!(minify_wgsl_source("f(a,b,)"), "f(a,b)");
}

#[test]
fn trailing_comma_before_bracket_is_removed() {
    assert_eq!(minify_wgsl_source("[1,2,3,]"), "[1,2,3]");
}

#[test]
fn trailing_comma_before_brace_is_removed() {
    assert_eq!(remove_trailing_commas("{x:1,}"), "{x:1}");
}

#[test]
fn trailing_comma_at_end_of_text_stays() {
    assert_eq!(remove_trailing_commas("a,b,"), "a,b,");
}

#[test]
fn double_parentheses_collapse() {
    assert_eq!(minify_wgsl_source("((x+y))"), "(x+y)");
}

#[test]
fn sibling_parentheses_stay() {
    assert_eq!(minify_wgsl_source("(x)+(y)"), "(x)+(y)");
}

#[test]
fn triple_parentheses_collapse_in_one_pass() {
    assert_eq!(remove_double_parens("(((x+y)))"), "(x+y)");
}

#[test]
fn empty_parentheses_stay() {
    assert_eq!(remove_double_parens("f()"), "f()");
}

#[test]
fn space_between_identifiers_is_kept() {
    assert_eq!(minify_whitespace("let  x"), "let x");
}

#[test]
fn space_around_operators_is_dropped() {
    assert_eq!(minify_whitespace("a  +  b"), "a+b");
}

#[test]
fn space_between_hyphen_and_digit_is_kept() {
    assert_eq!(minify_whitespace("x - 1u"), "x- 1u");
}

#[test]
fn space_between_hyphen_and_point_is_kept() {
    assert_eq!(minify_whitespace("y - .5"), "y- .5");
}

#[test]
fn space_between_hyphen_and_identifier_is_dropped() {
    assert_eq!(minify_whitespace("x - y"), "x-y");
}

#[test]
fn newlines_and_tabs_are_whitespace() {
    assert_eq!(minify_whitespace("fn\tmain()\n{\n    return;\n}"), "fn main(){return;}");
}

#[test]
fn leading_and_trailing_whitespace_vanishes() {
    assert_eq!(minify_whitespace("  a  "), "a");
}

#[test]
fn underscores_and_digits_continue_identifiers() {
    assert_eq!(minify_whitespace("a_1 b2"), "a_1 b2");
}

#[test]
fn nonascii_letters_are_not_fused() {
    assert_eq!(minify_whitespace("été où"), "été où");
    assert_eq!(minify_whitespace("été + où"), "été+où");
}

#[test]
fn no_break_space_is_elided() {
    assert_eq!(minify_whitespace("a\u{00A0}+\u{00A0}b"), "a+b");
    assert_eq!(minify_whitespace("a\u{00A0}b"), "a b");
}

#[test]
fn whole_minifier_on_a_small_expression() {
    assert_eq!(minify_wgsl_source("f( (x + y) , ( ( z ) ) ,)"), "f((x+y),(z))");
}

#[test]
fn empty_text_stays_empty() {
    assert_eq!(minify_whitespace(""), "");
    assert_eq!(remove_trailing_commas(""), "");
    assert_eq!(remove_double_parens(""), "");
    assert_eq!(minify_wgsl_source(""), "");
}

#[test]
fn whitespace_only_text_vanishes() {
    assert_eq!(minify_wgsl_source(" \t\n"), "");
}

#[test]
fn minifier_output_is_a_fixed_point() {
    let inputs = [
        "f(a,b,)",
        "[1,2,3,]",
        "((x+y))",
        "(x)+(y)",
        "fn main() { let x = f32(1 - i32(idx)) * 0.5; }",
        "f( (x + y) , ( ( z ) ) ,)",
        "x - 1u",
    ];
    for input in inputs {
        let once = minify_wgsl_source(input);
        let twice = minify_wgsl_source(&once);
        assert_eq!(once, twice);
    }
}
