use wgsl_minifier::collapse_single_use_temporaries;

#[test]
fn single_use_temporary_is_collapsed() {
    assert_eq!(collapse_single_use_temporaries("let x=1.0;f(x)"), "f(1.0)");
}

#[test]
fn baked_temporary_before_return_is_collapsed() {
    assert_eq!(collapse_single_use_temporaries("let _e22=E;return _e22;"), "return E;");
}

#[test]
fn multi_use_temporary_is_left_alone() {
    assert_eq!(collapse_single_use_temporaries("let x=y;g(x,x)"), "let x=y;g(x,x)");
}

#[test]
fn unused_temporary_is_left_alone() {
    assert_eq!(collapse_single_use_temporaries("let x=y;g(z)"), "let x=y;g(z)");
}

#[test]
fn text_without_declarations_is_unchanged() {
    assert_eq!(collapse_single_use_temporaries("a+b"), "a+b");
}

#[test]
fn name_inside_longer_identifiers_does_not_count_as_a_use() {
    assert_eq!(collapse_single_use_temporaries("let x=1.0;fx(xx)"), "let x=1.0;fx(xx)");
}

#[test]
fn keyword_inside_longer_identifier_starts_no_declaration() {
    assert_eq!(collapse_single_use_temporaries("bullet x=1;h(x)"), "bullet x=1;h(x)");
}

#[test]
fn collapsing_reaches_a_fixed_point() {
    let once = collapse_single_use_temporaries("let x=1.0;f(x)");
    let twice = collapse_single_use_temporaries(&once);
    assert_eq!(once, twice);
}

#[test]
fn two_temporaries_collapse_one_per_application() {
    let first = collapse_single_use_temporaries("let a=1;let b=2;f(a,b)");
    assert_eq!(first, "let b=2;f(1,b)");
    let second = collapse_single_use_temporaries(&first);
    assert_eq!(second, "f(1,2)");
}
