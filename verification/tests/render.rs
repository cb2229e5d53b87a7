use frona_server::render::{
    decimal_chars, escape_attr, find_placeholders, interpolate, render_skill,
    strip_leftover_numeric, Placeholder, PlaceholderSet,
};

#[test]
fn no_placeholder_empty_prompt_just_tag() {
    let out = format!("<skill name=\"{}\">{}</skill>", "weather", "body");
    assert!(out.starts_with("<skill name=\"weather\">"));
    assert!(out.ends_with("</skill>"));
    assert_eq!(render_skill("weather", "", "body", &[]), out);
}

#[test]
fn render_skill_without_placeholders_appends_prompt() {
    assert_eq!(
        render_skill("weather", "London", "body", &[]),
        "<skill name=\"weather\">body</skill>\nLondon"
    );
}

#[test]
fn render_skill_with_placeholders_interpolates_and_escapes() {
    assert_eq!(
        render_skill("w", "a \"b\"", "Say $ARGUMENTS", &[]),
        "<skill name=\"w\" prompt=\"a &quot;b&quot;\">Say a \"b\"</skill>"
    );
}

#[test]
fn interpolate_arguments_substitutes_raw_prompt() {
    let out = interpolate("Look up $ARGUMENTS now.", "London tomorrow", &[], &PlaceholderSet::new());
    assert_eq!(out, "Look up London tomorrow now.");
}

#[test]
fn interpolate_positional_with_quoting() {
    let out = interpolate(
        "git commit -m \"$1\" --author $2",
        r#""fix the typo" alice"#,
        &[],
        &PlaceholderSet::new(),
    );
    assert_eq!(out, "git commit -m \"fix the typo\" --author alice");
}

#[test]
fn interpolate_strips_leftover_when_undersupplied() {
    let out = interpolate("$1 then $2 then $3", "only-one", &[], &PlaceholderSet::new());
    assert_eq!(out, "only-one then  then ");
}

#[test]
fn interpolate_named_via_frontmatter() {
    let out = interpolate(
        "Forecast for $city over $days days.",
        "Paris 7",
        &["city".to_string(), "days".to_string()],
        &PlaceholderSet::new(),
    );
    assert_eq!(out, "Forecast for Paris over 7 days.");
}

#[test]
fn interpolate_named_missing_substitutes_empty() {
    let out = interpolate(
        "Hello $name.",
        "",
        &["name".to_string()],
        &PlaceholderSet::new(),
    );
    assert_eq!(out, "Hello .");
}

#[test]
fn interpolate_two_digit_index_is_not_split() {
    let prompt = "a b c d e f g h i j k";
    assert_eq!(interpolate("$10-$1", prompt, &[], &PlaceholderSet::new()), "j-a");
}

#[test]
fn find_placeholders_detects_arguments_and_numeric() {
    let p = find_placeholders("hello $ARGUMENTS, $1 then $2", &[]);
    assert!(p.contains(&Placeholder::Arguments));
    assert!(p.contains(&Placeholder::Numeric));
    assert!(!p.contains(&Placeholder::Named));
}

#[test]
fn find_placeholders_detects_named_only_when_declared() {
    let p = find_placeholders("city is $city", &[]);
    assert!(!p.contains(&Placeholder::Named));
    let p = find_placeholders("city is $city", &["city".to_string()]);
    assert!(p.contains(&Placeholder::Named));
}

#[test]
fn find_placeholders_none_is_empty() {
    assert!(find_placeholders("costs $ and more", &[]).is_empty());
}

#[test]
fn escape_attr_escapes_html_specials() {
    assert_eq!(escape_attr(r#"a & "b" < c"#), r#"a &amp; &quot;b&quot; &lt; c"#);
    assert_eq!(escape_attr("x > y"), "x &gt; y");
}

#[test]
fn strip_leftover_numeric_drops_dollar_digits() {
    assert_eq!(strip_leftover_numeric("a $12 b $ c $x"), "a  b $ c $x");
}

#[test]
fn decimal_chars_spells_the_number() {
    assert_eq!(decimal_chars(0), vec!['0']);
    assert_eq!(decimal_chars(407), vec!['4', '0', '7']);
}
