use philiprehberger_template::{Number, ParseError, RenderError, Template, Value, ValueMap};

fn data_with(pairs: Vec<(&str, Value)>) -> ValueMap {
    let mut map = ValueMap::new();
    for (k, v) in pairs {
        map.insert(k.to_string(), v);
    }
    map
}

fn render(tpl: &str, data: &ValueMap) -> Result<String, RenderError> {
    Template::parse(tpl).unwrap().render(data)
}

#[test]
fn closing_brace_escape_and_lone_brace() {
    let data = ValueMap::new();
    assert_eq!(render("a}}b", &data).unwrap(), "a}b");
    assert_eq!(render("a}b", &data).unwrap(), "a}b");
    assert_eq!(render("{{}}", &data).unwrap(), "{}");
}

#[test]
fn else_branch_and_negation_swap() {
    let data = data_with(vec![("x", Value::from(false))]);
    assert_eq!(render("{#if x}A{:else}B{/if}", &data).unwrap(), "B");
    assert_eq!(render("{#if !x}B{:else}A{/if}", &data).unwrap(), "B");
    let data2 = data_with(vec![("x", Value::from(true))]);
    assert_eq!(render("{#if x}A{:else}B{/if}", &data2).unwrap(), "A");
    assert_eq!(render("{#if !x}B{:else}A{/if}", &data2).unwrap(), "A");
}

#[test]
fn missing_condition_takes_else() {
    let data = ValueMap::new();
    assert_eq!(render("{#if nothing}A{:else}B{/if}", &data).unwrap(), "B");
}

#[test]
fn spaces_inside_tags_are_trimmed() {
    let data = data_with(vec![("name", Value::from("ab")), ("x", Value::from(false))]);
    assert_eq!(render("{ name | upper }", &data).unwrap(), "AB");
    assert_eq!(render("{#if   !  x }yes{/if}", &data).unwrap(), "yes");
}

#[test]
fn trim_filter_is_idempotent() {
    let data = data_with(vec![("s", Value::from("\t x y \n"))]);
    assert_eq!(render("[{s|trim}]", &data).unwrap(), "[x y]");
    let once = render("{s|trim}", &data).unwrap();
    let data2 = data_with(vec![("s", Value::from(once.as_str()))]);
    assert_eq!(render("{s|trim}", &data2).unwrap(), once);
}

#[test]
fn unknown_filter_is_type_error() {
    let data = data_with(vec![("s", Value::from("x"))]);
    let err = render("{s|shout}", &data).unwrap_err();
    assert_eq!(err, RenderError::TypeError("unknown filter: shout".into()));
    assert_eq!(err.display_string(), "type error: unknown filter: shout");
}

#[test]
fn each_over_non_list_names_the_kind() {
    let data = data_with(vec![("n", Value::from(5i64)), ("b", Value::from(true))]);
    let err = render("{#each n}{.}{/each}", &data).unwrap_err();
    assert_eq!(err, RenderError::TypeError("expected list for #each, got number".into()));
    let err = render("{#each b}{.}{/each}", &data).unwrap_err();
    assert_eq!(err, RenderError::TypeError("expected list for #each, got bool".into()));
    let data2 = data_with(vec![("m", Value::Object(ValueMap::new()))]);
    let err = render("{#each m}{.}{/each}", &data2).unwrap_err();
    assert_eq!(err, RenderError::TypeError("expected list for #each, got map".into()));
}

#[test]
fn each_over_missing_variable() {
    let err = render("{#each nope}x{/each}", &ValueMap::new()).unwrap_err();
    assert_eq!(err, RenderError::MissingVariable("nope".into()));
    assert_eq!(err.display_string(), "missing variable: nope");
}

#[test]
fn each_single_item_and_empty_list() {
    let data = data_with(vec![
        ("one", Value::List(vec![Value::from("only")])),
        ("none", Value::List(vec![])),
    ]);
    assert_eq!(render("<{#each one}{.}{/each}>", &data).unwrap(), "<only>");
    assert_eq!(render("<{#each none}{.}{/each}>", &data).unwrap(), "<>");
}

#[test]
fn loop_item_falls_back_to_root_data() {
    let mut item = ValueMap::new();
    item.insert("name".to_string(), Value::from("A"));
    let data = data_with(vec![
        ("items", Value::List(vec![Value::Object(item)])),
        ("sep", Value::from(";")),
    ]);
    assert_eq!(render("{#each items}{name}{sep}{/each}", &data).unwrap(), "A;");
}

#[test]
fn values_are_shown_as_text() {
    let mut m = ValueMap::new();
    m.insert("k".to_string(), Value::from("v"));
    let data = data_with(vec![
        ("list", Value::List(vec![Value::from("a"), Value::from(2i64), Value::from(true)])),
        ("map", Value::Object(m)),
        ("t", Value::from(true)),
        ("f", Value::from(false)),
        ("neg", Value::from(-7i64)),
    ]);
    assert_eq!(render("{list}|{map}|{t}|{f}|{neg}", &data).unwrap(), "a, 2, true|[object]|true|false|-7");
}

#[test]
fn large_integers_are_shown_as_doubles() {
    assert_eq!(Value::from(9007199254740993i64).display_string(), "9007199254740992");
    assert_eq!(Value::from(9007199254740995i64).display_string(), "9007199254740996");
    assert_eq!(Value::from(i64::MAX).display_string(), "9223372036854775807");
    assert_eq!(Value::from(i64::MIN).display_string(), "-9223372036854775808");
    assert_eq!(Value::from(0i64).display_string(), "0");
    assert_eq!(Value::from(123456789i64).display_string(), "123456789");
}

#[test]
fn zero_is_falsy() {
    let data = data_with(vec![("z", Value::from(0i64)), ("o", Value::from(1i64))]);
    assert_eq!(render("{#if z}Z{/if}{#if o}O{/if}", &data).unwrap(), "O");
    assert!(!Value::from(0i64).is_truthy());
    assert!(Value::Object(ValueMap::new()).is_truthy());
}

#[test]
fn dot_path_into_missing_or_non_map() {
    let data = data_with(vec![("a", Value::from("x"))]);
    let err = render("{a.b}", &data).unwrap_err();
    assert_eq!(err, RenderError::MissingVariable("a.b".into()));
}

#[test]
fn invalid_syntax_errors() {
    let err = Template::parse("hello {name").unwrap_err();
    assert_eq!(err, ParseError::InvalidSyntax("unclosed tag, expected '}'".into()));
    let err = Template::parse("a {} b").unwrap_err();
    assert_eq!(err, ParseError::InvalidSyntax("empty tag".into()));
    assert_eq!(err.display_string(), "invalid syntax: empty tag");
    let err = Template::parse("{  }").unwrap_err();
    assert_eq!(err, ParseError::InvalidSyntax("empty tag".into()));
}

#[test]
fn unmatched_block_messages() {
    let err = Template::parse("{:else}").unwrap_err();
    assert_eq!(err, ParseError::UnmatchedBlock("unexpected {:else} without matching {#if}".into()));
    let err = Template::parse("{#if a}x").unwrap_err();
    assert_eq!(err, ParseError::UnmatchedBlock("expected closing tag for {#if}".into()));
    let err = Template::parse("{#if a}x{:else}y").unwrap_err();
    assert_eq!(err, ParseError::UnmatchedBlock("expected closing tag for {#if_else_end}".into()));
    let err = Template::parse("{#each a}x").unwrap_err();
    assert_eq!(err, ParseError::UnmatchedBlock("expected closing tag for {#each}".into()));
    let err = Template::parse("x{/each}").unwrap_err();
    assert_eq!(err, ParseError::UnmatchedBlock("unexpected {/each} without matching {#each}".into()));
    assert_eq!(
        err.display_string(),
        "unmatched block: unexpected {/each} without matching {#each}"
    );
}

#[test]
fn else_after_closed_if_is_unmatched() {
    let err = Template::parse("{#if a}x{/if}{:else}y{/if}").unwrap_err();
    assert_eq!(err, ParseError::UnmatchedBlock("unexpected {:else} without matching {#if}".into()));
    let tpl = Template::parse("{#if a}{#if b}x{/if}{:else}y{/if}").unwrap();
    let off = data_with(vec![("a", Value::from(false)), ("b", Value::from(true))]);
    assert_eq!(tpl.render(&off).unwrap(), "y");
    let both = data_with(vec![("a", Value::from(true)), ("b", Value::from(true))]);
    assert_eq!(tpl.render(&both).unwrap(), "x");
    let only_a = data_with(vec![("a", Value::from(true)), ("b", Value::from(false))]);
    assert_eq!(tpl.render(&only_a).unwrap(), "");
}

#[test]
fn map_insert_replaces_and_returns_old() {
    let mut m = ValueMap::new();
    assert!(m.insert("k".to_string(), Value::from("one")).is_none());
    let old = m.insert("k".to_string(), Value::from("two")).unwrap();
    assert_eq!(old.as_str(), Some("one"));
    assert_eq!(m.get("k").unwrap().as_str(), Some("two"));
    assert!(m.get("other").is_none());
    m.insert("other".to_string(), Value::from(true));
    assert_eq!(m.get("k").unwrap().as_str(), Some("two"));
    assert_eq!(m.get("other").unwrap().as_bool(), Some(true));
}

#[test]
fn accessors_and_kinds() {
    let s = Value::from("s");
    let n = Value::from(3i64);
    let b = Value::from(true);
    let l = Value::from(vec![Value::from("a")]);
    let m = Value::Object(ValueMap::new());
    assert_eq!(s.as_str(), Some("s"));
    assert_eq!(n.as_str(), None);
    assert_eq!(b.as_bool(), Some(true));
    assert_eq!(s.as_bool(), None);
    assert_eq!(l.as_list().unwrap().len(), 1);
    assert!(s.as_list().is_none());
    assert!(m.as_map().is_some());
    assert!(l.as_map().is_none());
    for (v, k) in [(&s, 0), (&n, 1), (&b, 2), (&l, 3), (&m, 4)] {
        let kinds = [v.is_string(), v.is_number(), v.is_bool(), v.is_list(), v.is_map()];
        for (i, x) in kinds.iter().enumerate() {
            assert_eq!(*x, i == k);
        }
    }
    assert_eq!(Value::default().as_str(), Some(""));
    assert_eq!(Value::from(String::from("owned")).as_str(), Some("owned"));
    assert_eq!(Number::from_text("2.5".to_string()).text(), "2.5");
}

#[test]
fn clones_render_alike() {
    let mut m = ValueMap::new();
    m.insert("k".to_string(), Value::from(vec![Value::from("x"), Value::from(4i64)]));
    let v = Value::Object(m);
    let c = v.clone();
    assert_eq!(
        c.as_map().unwrap().get("k").unwrap().display_string(),
        "x, 4"
    );
    let tpl = Template::parse("{#if a}{a}{:else}none{/if}").unwrap();
    let copy = tpl.clone();
    let data = data_with(vec![("a", Value::from("yes"))]);
    assert_eq!(copy.render(&data).unwrap(), tpl.render(&data).unwrap());
    assert_eq!(copy.render(&ValueMap::new()).unwrap(), "none");
}

#[test]
fn first_error_wins() {
    let data = data_with(vec![("b", Value::from("x"))]);
    let err = render("{a}{b|bad}", &data).unwrap_err();
    assert_eq!(err, RenderError::MissingVariable("a".into()));
    let err = render("{b|bad}{a}", &data).unwrap_err();
    assert_eq!(err, RenderError::TypeError("unknown filter: bad".into()));
}

#[test]
fn properly_nested_blocks_parse() {
    let tpl = Template::parse("{#each xs}{#if .}[{.}]{:else}-{/if}{/each}").unwrap();
    let data = data_with(vec![(
        "xs",
        Value::List(vec![Value::from("a"), Value::from(""), Value::from(0i64), Value::from(2i64)]),
    )]);
    assert_eq!(tpl.render(&data).unwrap(), "[a]--[2]");
    let err = Template::parse("{#each xs}{#if a}{/each}{/if}").unwrap_err();
    assert!(matches!(err, ParseError::UnmatchedBlock(_)));
}

#[test]
fn value_equality() {
    assert_eq!(Value::from("a"), Value::from("a"));
    assert_ne!(Value::from("a"), Value::from("b"));
    assert_eq!(Value::from(3i64), Value::from(3i64));
    assert_ne!(Value::from(3i64), Value::from("3"));
    let nan = Value::Number(Number::from_text("NaN".to_string()));
    assert_ne!(nan, nan.clone());
    let mut m1 = ValueMap::new();
    m1.insert("a".to_string(), Value::from(1i64));
    m1.insert("b".to_string(), Value::from(vec![Value::from(true)]));
    let mut m2 = ValueMap::new();
    m2.insert("b".to_string(), Value::from(vec![Value::from(true)]));
    m2.insert("a".to_string(), Value::from(1i64));
    assert_eq!(Value::Object(m1.clone()), Value::Object(m2.clone()));
    m2.insert("a".to_string(), Value::from(2i64));
    assert_ne!(m1, m2);
    let mut m3 = m1.clone();
    m3.insert("c".to_string(), Value::from(false));
    assert_ne!(m1, m3);
    assert_eq!(
        Value::from(vec![Value::from("x"), Value::from(1i64)]),
        Value::from(vec![Value::from("x"), Value::from(1i64)])
    );
    assert_ne!(Value::from(vec![Value::from("x")]), Value::from(vec![]));
}

#[test]
fn escaped_text_round_trips() {
    let text = "a{b}c {#if x} }}";
    let escaped = text.replace('{', "{{").replace('}', "}}");
    let tpl = Template::parse(&escaped).unwrap();
    assert_eq!(tpl.render(&ValueMap::new()).unwrap(), text);
}

#[test]
fn one_else_per_if() {
    let err = Template::parse("{#if a}x{:else}y{:else}z{/if}").unwrap_err();
    assert!(matches!(err, ParseError::UnmatchedBlock(_)));
    let err = Template::parse("{#each a}x{:else}y{/each}").unwrap_err();
    assert!(matches!(err, ParseError::UnmatchedBlock(_)));
}
