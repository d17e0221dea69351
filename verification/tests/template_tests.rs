use philiprehberger_template::{Number, ParseError, RenderError, Template, Value, ValueMap};

fn data_from(pairs: Vec<(&str, Value)>) -> ValueMap {
    let mut map = ValueMap::new();
    for (k, v) in pairs {
        map.insert(k.to_string(), v);
    }
    map
}

fn number_from_f64(n: f64) -> Value {
    let text = if n == (n as i64) as f64 {
        format!("{}", n as i64)
    } else {
        format!("{n}")
    };
    Value::Number(Number::from_text(text))
}

#[test]
fn simple_variable_replacement() {
    let tpl = Template::parse("Hello, {name}!").unwrap();
    let data = data_from(vec![("name", Value::from("world"))]);
    assert_eq!(tpl.render(&data).unwrap(), "Hello, world!");
}

#[test]
fn multiple_variables() {
    let tpl = Template::parse("{greeting}, {name}!").unwrap();
    let data = data_from(vec![
        ("greeting", Value::from("Hi")),
        ("name", Value::from("Alice")),
    ]);
    assert_eq!(tpl.render(&data).unwrap(), "Hi, Alice!");
}

#[test]
fn dot_notation_nested_access() {
    let tpl = Template::parse("Email: {user.email}").unwrap();
    let mut user = ValueMap::new();
    user.insert("email".to_string(), Value::from("a@b.com"));
    let data = data_from(vec![("user", Value::Object(user))]);
    assert_eq!(tpl.render(&data).unwrap(), "Email: a@b.com");
}

#[test]
fn deep_dot_notation() {
    let tpl = Template::parse("{a.b.c}").unwrap();
    let mut c_map = ValueMap::new();
    c_map.insert("c".to_string(), Value::from("deep"));
    let mut b_map = ValueMap::new();
    b_map.insert("b".to_string(), Value::Object(c_map));
    let data = data_from(vec![("a", Value::Object(b_map))]);
    assert_eq!(tpl.render(&data).unwrap(), "deep");
}

#[test]
fn conditional_truthy() {
    let tpl = Template::parse("{#if show}Hello{/if}").unwrap();
    let data = data_from(vec![("show", Value::from(true))]);
    assert_eq!(tpl.render(&data).unwrap(), "Hello");
}

#[test]
fn conditional_falsy() {
    let tpl = Template::parse("{#if show}Hello{/if}").unwrap();
    let data = data_from(vec![("show", Value::from(false))]);
    assert_eq!(tpl.render(&data).unwrap(), "");
}

#[test]
fn conditional_truthy_string() {
    let tpl = Template::parse("{#if name}Hi, {name}{/if}").unwrap();
    let data = data_from(vec![("name", Value::from("Bob"))]);
    assert_eq!(tpl.render(&data).unwrap(), "Hi, Bob");
}

#[test]
fn conditional_falsy_empty_string() {
    let tpl = Template::parse("{#if name}Hi, {name}{/if}").unwrap();
    let data = data_from(vec![("name", Value::from(""))]);
    assert_eq!(tpl.render(&data).unwrap(), "");
}

#[test]
fn negated_conditional_true() {
    let tpl = Template::parse("{#if !hidden}Visible{/if}").unwrap();
    let data = data_from(vec![("hidden", Value::from(false))]);
    assert_eq!(tpl.render(&data).unwrap(), "Visible");
}

#[test]
fn negated_conditional_false() {
    let tpl = Template::parse("{#if !hidden}Visible{/if}").unwrap();
    let data = data_from(vec![("hidden", Value::from(true))]);
    assert_eq!(tpl.render(&data).unwrap(), "");
}

#[test]
fn negated_conditional_missing_variable() {
    let tpl = Template::parse("{#if !missing}Shown{/if}").unwrap();
    let data = ValueMap::new();
    assert_eq!(tpl.render(&data).unwrap(), "Shown");
}

#[test]
fn loop_over_string_list() {
    let tpl = Template::parse("{#each items}{.}, {/each}").unwrap();
    let data = data_from(vec![(
        "items",
        Value::List(vec![Value::from("a"), Value::from("b"), Value::from("c")]),
    )]);
    assert_eq!(tpl.render(&data).unwrap(), "a, b, c, ");
}

#[test]
fn loop_over_number_list() {
    let tpl = Template::parse("{#each nums}{.} {/each}").unwrap();
    let data = data_from(vec![(
        "nums",
        Value::List(vec![Value::from(1i64), Value::from(2i64), Value::from(3i64)]),
    )]);
    assert_eq!(tpl.render(&data).unwrap(), "1 2 3 ");
}

#[test]
fn loop_over_list_of_maps() {
    let tpl = Template::parse("{#each users}{name} ({email})\n{/each}").unwrap();
    let mut u1 = ValueMap::new();
    u1.insert("name".to_string(), Value::from("Alice"));
    u1.insert("email".to_string(), Value::from("alice@example.com"));
    let mut u2 = ValueMap::new();
    u2.insert("name".to_string(), Value::from("Bob"));
    u2.insert("email".to_string(), Value::from("bob@example.com"));
    let data = data_from(vec![(
        "users",
        Value::List(vec![Value::Object(u1), Value::Object(u2)]),
    )]);
    assert_eq!(
        tpl.render(&data).unwrap(),
        "Alice (alice@example.com)\nBob (bob@example.com)\n"
    );
}

#[test]
fn filter_upper() {
    let tpl = Template::parse("{name|upper}").unwrap();
    let data = data_from(vec![("name", Value::from("hello"))]);
    assert_eq!(tpl.render(&data).unwrap(), "HELLO");
}

#[test]
fn filter_lower() {
    let tpl = Template::parse("{name|lower}").unwrap();
    let data = data_from(vec![("name", Value::from("HELLO"))]);
    assert_eq!(tpl.render(&data).unwrap(), "hello");
}

#[test]
fn filter_trim() {
    let tpl = Template::parse("{name|trim}").unwrap();
    let data = data_from(vec![("name", Value::from("  hello  "))]);
    assert_eq!(tpl.render(&data).unwrap(), "hello");
}

#[test]
fn escaped_braces() {
    let tpl = Template::parse("Use {{name}} for variables").unwrap();
    let data = ValueMap::new();
    assert_eq!(tpl.render(&data).unwrap(), "Use {name} for variables");
}

#[test]
fn missing_variable_error() {
    let tpl = Template::parse("{missing}").unwrap();
    let data = ValueMap::new();
    let err = tpl.render(&data).unwrap_err();
    assert_eq!(err, RenderError::MissingVariable("missing".into()));
}

#[test]
fn nested_conditionals() {
    let tpl = Template::parse("{#if a}{#if b}both{/if}{/if}").unwrap();
    let data = data_from(vec![("a", Value::from(true)), ("b", Value::from(true))]);
    assert_eq!(tpl.render(&data).unwrap(), "both");

    let data2 = data_from(vec![("a", Value::from(true)), ("b", Value::from(false))]);
    assert_eq!(tpl.render(&data2).unwrap(), "");
}

#[test]
fn parse_error_unmatched_if() {
    let err = Template::parse("{#if x}hello").unwrap_err();
    assert!(matches!(err, ParseError::UnmatchedBlock(_)));
}

#[test]
fn parse_error_unmatched_each() {
    let err = Template::parse("{#each items}hello").unwrap_err();
    assert!(matches!(err, ParseError::UnmatchedBlock(_)));
}

#[test]
fn parse_error_unexpected_close_if() {
    let err = Template::parse("hello{/if}").unwrap_err();
    assert!(matches!(err, ParseError::UnmatchedBlock(_)));
}

#[test]
fn parse_error_unexpected_close_each() {
    let err = Template::parse("hello{/each}").unwrap_err();
    assert!(matches!(err, ParseError::UnmatchedBlock(_)));
}

#[test]
fn number_display() {
    let tpl = Template::parse("Count: {n}").unwrap();
    let data = data_from(vec![("n", Value::from(42i64))]);
    assert_eq!(tpl.render(&data).unwrap(), "Count: 42");
}

#[test]
fn float_display() {
    let tpl = Template::parse("Pi: {pi}").unwrap();
    let data = data_from(vec![("pi", number_from_f64(3.14f64))]);
    assert_eq!(tpl.render(&data).unwrap(), "Pi: 3.14");
}

#[test]
fn plain_text_no_tags() {
    let tpl = Template::parse("Just plain text").unwrap();
    let data = ValueMap::new();
    assert_eq!(tpl.render(&data).unwrap(), "Just plain text");
}

#[test]
fn conditional_with_list_truthy() {
    let tpl = Template::parse("{#if items}Has items{/if}").unwrap();
    let data = data_from(vec![("items", Value::List(vec![Value::from("a")]))]);
    assert_eq!(tpl.render(&data).unwrap(), "Has items");
}

#[test]
fn conditional_with_empty_list_falsy() {
    let tpl = Template::parse("{#if items}Has items{/if}").unwrap();
    let data = data_from(vec![("items", Value::List(vec![]))]);
    assert_eq!(tpl.render(&data).unwrap(), "");
}

#[test]
fn type_error_each_on_non_list() {
    let tpl = Template::parse("{#each name}{.}{/each}").unwrap();
    let data = data_from(vec![("name", Value::from("not a list"))]);
    let err = tpl.render(&data).unwrap_err();
    assert!(matches!(err, RenderError::TypeError(_)));
}
