use check_fields::config::{build_entry, build_predicate, build_predicates};
use check_fields::{
    CheckFields, CheckFieldsConfig, CheckFieldsPredicate, CheckFieldsPredicateArg,
    ContainsPredicate, EndsWithPredicate, EqualsPredicate, Event, ExistsPredicate, Float, LogEvent,
    Metric, NotEqualsPredicate, Predicate, RegexPredicate, StartsWithPredicate, Value,
};
use indexmap::IndexMap;

fn float(x: f64) -> Float {
    Float::new(x.to_bits(), format!("{}", x), format!("{:?}", x))
}

fn text(s: &str) -> CheckFieldsPredicateArg {
    CheckFieldsPredicateArg::String(s.to_owned())
}

fn log_with(name: &str, value: Value) -> Event {
    let mut log = LogEvent::new();
    log.insert(name, value);
    Event::Log(log)
}

fn metric_with(name: &str, tag: &str) -> Event {
    let mut metric = Metric::new();
    metric.insert_tag(name, tag);
    Event::Metric(metric)
}

fn made(kind: &str, target: &str, arg: &CheckFieldsPredicateArg) -> Predicate {
    build_predicate(kind, target.to_owned(), arg).unwrap()
}

fn refused(kind: &str, arg: &CheckFieldsPredicateArg) -> String {
    build_predicate(kind, "field".to_owned(), arg).err().unwrap()
}

#[test]
fn equals_compares_strings_with_the_bytes_of_the_value() {
    let p = made("eq", "f", &text("5"));
    assert!(p.check(&log_with("f", Value::from_text("5"))));
    assert!(p.check(&log_with("f", Value::Integer(5))));
    assert!(p.check(&log_with("f", Value::Float(float(5.0)))));
    assert!(!p.check(&log_with("f", Value::Integer(50))));
    assert!(!p.check(&log_with("f", Value::Boolean(true))));
    assert!(!p.check(&log_with("g", Value::from_text("5"))));
    let t = made("equals", "f", &text("true"));
    assert!(t.check(&log_with("f", Value::Boolean(true))));
    assert!(!t.check(&log_with("f", Value::Boolean(false))));
    let raw = made("eq", "f", &text("a\u{fffd}"));
    assert!(!raw.check(&log_with("f", Value::Bytes(vec![b'a', 0xff]))));
    assert!(raw.check(&log_with("f", Value::Bytes("a\u{fffd}".as_bytes().to_vec()))));
}

#[test]
fn equals_converts_between_integers_and_floats() {
    let five = made("eq", "f", &CheckFieldsPredicateArg::Integer(5));
    assert!(five.check(&log_with("f", Value::Integer(5))));
    assert!(!five.check(&log_with("f", Value::Integer(6))));
    assert!(five.check(&log_with("f", Value::Float(float(5.0)))));
    // The float is cut, not rounded.
    assert!(five.check(&log_with("f", Value::Float(float(5.9)))));
    assert!(!five.check(&log_with("f", Value::Float(float(4.9)))));
    assert!(!five.check(&log_with("f", Value::from_text("5"))));
    assert!(!five.check(&log_with("f", Value::Boolean(true))));
    let minus = made("eq", "f", &CheckFieldsPredicateArg::Integer(-5));
    assert!(minus.check(&log_with("f", Value::Float(float(-5.9)))));
    let zero = made("eq", "f", &CheckFieldsPredicateArg::Integer(0));
    assert!(zero.check(&log_with("f", Value::Float(float(f64::NAN)))));
    assert!(zero.check(&log_with("f", Value::Float(float(-0.5)))));
    let most = made("eq", "f", &CheckFieldsPredicateArg::Integer(i64::MAX));
    assert!(most.check(&log_with("f", Value::Float(float(1e300)))));

    let half = made("eq", "f", &CheckFieldsPredicateArg::Float(float(5.5)));
    assert!(half.check(&log_with("f", Value::Float(float(5.5)))));
    assert!(!half.check(&log_with("f", Value::Float(float(5.0)))));
    assert!(!half.check(&log_with("f", Value::Integer(5))));
    assert!(!half.check(&log_with("f", Value::from_text("5.5"))));
    let whole = made("eq", "f", &CheckFieldsPredicateArg::Float(float(5.0)));
    assert!(whole.check(&log_with("f", Value::Integer(5))));
    assert!(!whole.check(&log_with("f", Value::Integer(6))));
    let zeros = made("eq", "f", &CheckFieldsPredicateArg::Float(float(-0.0)));
    assert!(zeros.check(&log_with("f", Value::Float(float(0.0)))));
    assert!(zeros.check(&log_with("f", Value::Integer(0))));
    let nan = made("eq", "f", &CheckFieldsPredicateArg::Float(float(f64::NAN)));
    assert!(!nan.check(&log_with("f", Value::Float(float(f64::NAN)))));
    // The integer is rounded to the nearest float before it is compared.
    let big = made("eq", "f", &CheckFieldsPredicateArg::Float(float(9_007_199_254_740_992.0)));
    assert!(big.check(&log_with("f", Value::Integer(9_007_199_254_740_993))));
    assert!(!big.check(&log_with("f", Value::Integer(9_007_199_254_740_995))));
}

#[test]
fn equals_compares_truth_values_with_truth_values_only() {
    let p = made("eq", "f", &CheckFieldsPredicateArg::Boolean(true));
    assert!(p.check(&log_with("f", Value::Boolean(true))));
    assert!(!p.check(&log_with("f", Value::Boolean(false))));
    assert!(!p.check(&log_with("f", Value::from_text("true"))));
    assert!(!p.check(&log_with("f", Value::Integer(1))));
    assert!(!p.check(&log_with("f", Value::Float(float(1.0)))));
}

#[test]
fn equals_on_a_metric_takes_strings_only() {
    let p = made("eq", "host", &text("a"));
    assert!(p.check(&metric_with("host", "a")));
    assert!(!p.check(&metric_with("host", "b")));
    assert!(!p.check(&metric_with("other", "a")));
    assert!(!p.check(&Event::Metric(Metric::new())));
    let n = made("eq", "host", &CheckFieldsPredicateArg::Integer(5));
    assert!(!n.check(&metric_with("host", "5")));
    let b = made("eq", "host", &CheckFieldsPredicateArg::Boolean(true));
    assert!(!b.check(&metric_with("host", "true")));
    let f = made("eq", "host", &CheckFieldsPredicateArg::Float(float(1.5)));
    assert!(!f.check(&metric_with("host", "1.5")));
}

#[test]
fn not_equals_renders_its_argument_and_needs_the_field() {
    let p = made("neq", "f", &CheckFieldsPredicateArg::Integer(5));
    assert!(!p.check(&log_with("f", Value::from_text("5"))));
    assert!(!p.check(&log_with("f", Value::Integer(5))));
    assert!(p.check(&log_with("f", Value::Integer(6))));
    // A float that converts to 5 is still not the text "5".
    assert!(p.check(&log_with("f", Value::Float(float(5.5)))));
    assert!(!p.check(&log_with("g", Value::Integer(6))));
    let b = made("not_equals", "f", &CheckFieldsPredicateArg::Boolean(false));
    assert!(!b.check(&log_with("f", Value::from_text("false"))));
    assert!(b.check(&log_with("f", Value::Boolean(true))));
    let f = made("neq", "f", &CheckFieldsPredicateArg::Float(float(1.5)));
    assert!(!f.check(&log_with("f", Value::from_text("1.5"))));
    assert!(f.check(&log_with("f", Value::from_text("1.50"))));
    let m = made("neq", "host", &text("a"));
    assert!(m.check(&metric_with("host", "b")));
    assert!(!m.check(&metric_with("host", "a")));
    assert!(!m.check(&metric_with("other", "b")));
    assert!(!m.check(&Event::Metric(Metric::new())));
}

#[test]
fn text_predicates_read_the_lossy_text_of_a_log_field() {
    let c = made("contains", "f", &text("23"));
    assert!(c.check(&log_with("f", Value::Integer(1234))));
    assert!(!c.check(&log_with("f", Value::Integer(1324))));
    assert!(c.check(&log_with("f", Value::from_text("a23"))));
    assert!(!c.check(&log_with("g", Value::from_text("a23"))));
    assert!(!c.check(&metric_with("f", "a23")));
    let s = made("starts_with", "f", &text("tr"));
    assert!(s.check(&log_with("f", Value::Boolean(true))));
    assert!(!s.check(&log_with("f", Value::Boolean(false))));
    assert!(!s.check(&metric_with("f", "true")));
    let e = made("ends_with", "f", &text(".5"));
    assert!(e.check(&log_with("f", Value::Float(float(2.5)))));
    assert!(!e.check(&log_with("f", Value::Float(float(2.0)))));
    assert!(!e.check(&metric_with("f", "2.5")));
    // Bytes that are no UTF-8 are read as the replacement character.
    let r = made("contains", "f", &text("\u{fffd}"));
    assert!(r.check(&log_with("f", Value::Bytes(vec![b'a', 0xff, b'b']))));
    assert!(!r.check(&log_with("f", Value::from_text("ab"))));
    let after = made("ends_with", "f", &text("\u{fffd}b"));
    assert!(after.check(&log_with("f", Value::Bytes(vec![b'a', 0xff, b'b']))));
    let empty = made("contains", "f", &text(""));
    assert!(empty.check(&log_with("f", Value::from_text(""))));
    assert!(!empty.check(&log_with("g", Value::from_text(""))));
}

#[test]
fn regex_searches_fields_and_tags() {
    let p = made("regex", "f", &text("^a+b$"));
    assert!(p.check(&log_with("f", Value::from_text("aab"))));
    assert!(!p.check(&log_with("f", Value::from_text("aabc"))));
    assert!(!p.check(&log_with("g", Value::from_text("aab"))));
    assert!(p.check(&metric_with("f", "ab")));
    assert!(!p.check(&metric_with("f", "b")));
    assert!(!p.check(&metric_with("g", "ab")));
    assert!(!p.check(&Event::Metric(Metric::new())));
    let digits = made("regex", "f", &text("^[0-9]+$"));
    assert!(digits.check(&log_with("f", Value::Integer(42))));
    assert!(!digits.check(&log_with("f", Value::Integer(-42))));
    let part = made("regex", "f", &text("b.d"));
    assert!(part.check(&log_with("f", Value::from_text("abcde"))));
}

#[test]
fn exists_asks_for_presence_or_absence() {
    let there = made("exists", "f", &CheckFieldsPredicateArg::Boolean(true));
    let gone = made("exists", "f", &CheckFieldsPredicateArg::Boolean(false));
    let with = log_with("f", Value::Integer(0));
    let without = log_with("g", Value::Integer(0));
    assert!(there.check(&with));
    assert!(!there.check(&without));
    assert!(!gone.check(&with));
    assert!(gone.check(&without));
    assert!(there.check(&metric_with("f", "")));
    assert!(!there.check(&metric_with("g", "")));
    assert!(!there.check(&Event::Metric(Metric::new())));
    assert!(gone.check(&Event::Metric(Metric::new())));
    assert!(gone.check(&metric_with("g", "")));
}

#[test]
fn each_kind_says_which_argument_it_needs() {
    let number = CheckFieldsPredicateArg::Integer(1);
    let truth = CheckFieldsPredicateArg::Boolean(true);
    let real = CheckFieldsPredicateArg::Float(float(1.5));
    assert_eq!(refused("contains", &number), "contains predicate requires a string argument");
    assert_eq!(refused("contains", &truth), "contains predicate requires a string argument");
    assert_eq!(refused("starts_with", &real), "starts_with predicate requires a string argument");
    assert_eq!(refused("prefix", &number), "starts_with predicate requires a string argument");
    assert_eq!(refused("ends_with", &truth), "ends_with predicate requires a string argument");
    assert_eq!(refused("regex", &number), "regex predicate requires a string argument");
    assert_eq!(refused("exists", &text("true")), "exists predicate requires a boolean argument");
    assert_eq!(refused("exists", &number), "exists predicate requires a boolean argument");
    assert_eq!(refused("exists", &real), "exists predicate requires a boolean argument");
    assert_eq!(refused("not_real", &text("x")), "predicate type 'not_real' not recognized");
    assert_eq!(refused("", &text("x")), "predicate type '' not recognized");
    assert!(build_predicate("eq", "f".to_owned(), &number).is_ok());
    assert!(build_predicate("neq", "f".to_owned(), &truth).is_ok());
    assert!(build_predicate("equals", "f".to_owned(), &real).is_ok());
}

#[test]
fn an_invalid_pattern_is_refused_with_its_reason() {
    let message = refused("regex", &text("a(b"));
    let reason = regex::Regex::new("a(b").unwrap_err().to_string();
    assert_eq!(message, format!("Invalid regex \"a(b\": {}", reason));
    assert!(message.contains("unclosed group"));
    let compiled = regex::Regex::new("a(b");
    let again = RegexPredicate::from_compiled("f".to_owned(), "a(b", compiled)
        .err()
        .unwrap();
    assert_eq!(again, message);
    let fine = RegexPredicate::from_compiled("f".to_owned(), "ab", regex::Regex::new("ab"));
    assert!(fine.unwrap().check(&log_with("f", Value::from_text("cabd"))));
}

#[test]
fn the_constructors_make_their_own_kind() {
    let s = text("oo");
    let made = [
        EqualsPredicate::new("f".to_owned(), &text("foo")).unwrap(),
        NotEqualsPredicate::new("f".to_owned(), &text("bar")).unwrap(),
        ContainsPredicate::new("f".to_owned(), &s).unwrap(),
        StartsWithPredicate::new("f".to_owned(), &text("fo")).unwrap(),
        EndsWithPredicate::new("f".to_owned(), &s).unwrap(),
        RegexPredicate::new("f".to_owned(), &text("^f")).unwrap(),
        ExistsPredicate::new("f".to_owned(), &CheckFieldsPredicateArg::Boolean(true)).unwrap(),
    ];
    assert!(matches!(made[0], Predicate::Equals(_)));
    assert!(matches!(made[1], Predicate::NotEquals(_)));
    assert!(matches!(made[2], Predicate::Contains(_)));
    assert!(matches!(made[3], Predicate::StartsWith(_)));
    assert!(matches!(made[4], Predicate::EndsWith(_)));
    assert!(matches!(made[5], Predicate::Regex(_)));
    assert!(matches!(made[6], Predicate::Exists(_)));
    let yes = log_with("f", Value::from_text("foo"));
    let no = log_with("g", Value::from_text("foo"));
    for p in made.iter() {
        assert!(p.check(&yes));
        assert!(!p.check(&no));
    }
    match &made[2] {
        Predicate::Contains(inner) => assert!(inner.check(&yes)),
        _ => unreachable!(),
    }
}

#[test]
fn the_deprecated_name_makes_the_same_predicate() {
    let events = [
        log_with("f", Value::from_text("foo hello")),
        log_with("f", Value::from_text("hello foo")),
        log_with("g", Value::from_text("foo")),
        log_with("f", Value::Integer(5)),
        metric_with("f", "foo"),
    ];
    for arg in [text("foo"), text(""), text("5")] {
        let old = made("prefix", "f", &arg);
        let new = made("starts_with", "f", &arg);
        assert!(matches!(old, Predicate::StartsWith(_)));
        for e in events.iter() {
            assert_eq!(old.check(e), new.check(e));
        }
    }
    let number = CheckFieldsPredicateArg::Integer(1);
    assert_eq!(refused("prefix", &number), refused("starts_with", &number));
}

#[test]
fn a_rule_compiles_by_its_key() {
    assert!(matches!(build_entry("a.b.eq", &text("x")), Ok(Predicate::Equals(_))));
    let p = build_entry("a.b.eq", &text("x")).unwrap();
    assert!(p.check(&log_with("a.b", Value::from_text("x"))));
    assert!(!p.check(&log_with("a", Value::from_text("x"))));
    assert_eq!(
        build_entry("nodot", &text("x")).err().unwrap(),
        "predicate not found in check_fields value 'nodot', format must be <target>.<predicate>"
    );
    assert_eq!(
        build_entry("a.b", &text("x")).err().unwrap(),
        "predicate type 'b' not recognized"
    );
}

#[test]
fn names_show_the_key_and_the_argument() {
    let mut rules: IndexMap<String, CheckFieldsPredicateArg> = IndexMap::new();
    rules.insert("a.eq".to_owned(), text("say \"hi\"\n"));
    rules.insert("b.eq".to_owned(), CheckFieldsPredicateArg::Integer(-12));
    rules.insert("c.eq".to_owned(), CheckFieldsPredicateArg::Float(float(1.0)));
    rules.insert("d.eq".to_owned(), CheckFieldsPredicateArg::Boolean(false));
    rules.insert("e.neq".to_owned(), CheckFieldsPredicateArg::Float(float(2.5)));
    let compiled = build_predicates(&rules).unwrap();
    let names: Vec<&String> = compiled.keys().collect();
    assert_eq!(
        names,
        vec![
            "a.eq: \"say \\\"hi\\\"\\n\"",
            "b.eq: -12",
            "c.eq: 1.0",
            "d.eq: false",
            "e.neq: 2.5",
        ]
    );
    let condition = CheckFields::new(compiled);
    let event = Event::Log(LogEvent::new());
    assert_eq!(
        condition.check_with_context(&event),
        Err("predicates failed: [ a.eq: \"say \\\"hi\\\"\\n\", b.eq: -12, c.eq: 1.0, d.eq: false, e.neq: 2.5 ]".to_owned())
    );
}

#[test]
fn all_errors_are_collected_in_order() {
    let mut rules: IndexMap<String, CheckFieldsPredicateArg> = IndexMap::new();
    rules.insert("a.eq".to_owned(), text("x"));
    rules.insert("b.contains".to_owned(), CheckFieldsPredicateArg::Integer(1));
    rules.insert("c".to_owned(), text("x"));
    rules.insert("d.exists".to_owned(), text("x"));
    let errors = build_predicates(&rules).err().unwrap();
    assert_eq!(
        errors,
        vec![
            "contains predicate requires a string argument".to_owned(),
            "predicate not found in check_fields value 'c', format must be <target>.<predicate>"
                .to_owned(),
            "exists predicate requires a boolean argument".to_owned(),
        ]
    );
    assert_eq!(
        CheckFieldsConfig::new(rules).build().err().unwrap(),
        "failed to parse predicates:\ncontains predicate requires a string argument\npredicate not found in check_fields value 'c', format must be <target>.<predicate>\nexists predicate requires a boolean argument"
    );
    let mut one: IndexMap<String, CheckFieldsPredicateArg> = IndexMap::new();
    one.insert("a.eq".to_owned(), text("x"));
    one.insert("b.regex".to_owned(), CheckFieldsPredicateArg::Boolean(true));
    assert_eq!(
        CheckFieldsConfig::new(one).build().err().unwrap(),
        "regex predicate requires a string argument"
    );
}

#[test]
fn a_configuration_keeps_its_rules() {
    let mut rules: IndexMap<String, CheckFieldsPredicateArg> = IndexMap::new();
    rules.insert("b.eq".to_owned(), text("x"));
    rules.insert("a.exists".to_owned(), CheckFieldsPredicateArg::Boolean(true));
    let config = CheckFieldsConfig::new(rules);
    let keys: Vec<&String> = config.predicates().keys().collect();
    assert_eq!(keys, vec!["b.eq", "a.exists"]);
    assert!(matches!(
        config.predicates().get("a.exists"),
        Some(CheckFieldsPredicateArg::Boolean(true))
    ));
}

#[test]
fn an_empty_configuration_passes_everything() {
    let condition = CheckFieldsConfig::new(IndexMap::new()).build().unwrap();
    assert!(condition.check(&Event::from_message("anything")));
    assert_eq!(condition.check_with_context(&Event::from_message("anything")), Ok(()));
    assert!(condition.check(&Event::Metric(Metric::new())));
}

#[test]
fn deprecated_names_are_reported_by_target() {
    let mut rules: IndexMap<String, CheckFieldsPredicateArg> = IndexMap::new();
    rules.insert("a.prefix".to_owned(), text("x"));
    rules.insert("b.starts_with".to_owned(), text("x"));
    rules.insert("c.d.prefix".to_owned(), CheckFieldsPredicateArg::Integer(1));
    rules.insert("prefix".to_owned(), text("x"));
    rules.insert(".prefix".to_owned(), text("x"));
    let config = CheckFieldsConfig::new(rules);
    assert_eq!(config.deprecations(), vec!["a".to_owned(), "c.d".to_owned()]);
    assert_eq!(CheckFieldsConfig::new(IndexMap::new()).deprecations(), Vec::<String>::new());
}

#[test]
fn both_verdicts_agree_and_failures_keep_their_order() {
    let mut rules: IndexMap<String, CheckFieldsPredicateArg> = IndexMap::new();
    rules.insert("z.exists".to_owned(), CheckFieldsPredicateArg::Boolean(true));
    rules.insert("a.exists".to_owned(), CheckFieldsPredicateArg::Boolean(true));
    rules.insert("m.exists".to_owned(), CheckFieldsPredicateArg::Boolean(true));
    let condition = CheckFieldsConfig::new(rules).build().unwrap();
    let names = ["z", "a", "m"];
    for present in 0..8u32 {
        let mut log = LogEvent::new();
        let mut missing: Vec<String> = Vec::new();
        for (i, name) in names.iter().enumerate() {
            if present & (1 << i) != 0 {
                log.insert(name, Value::Boolean(true));
            } else {
                missing.push(format!("{}.exists: true", name));
            }
        }
        let event = Event::Log(log);
        let verdict = condition.check_with_context(&event);
        assert_eq!(condition.check(&event), verdict.is_ok());
        if missing.is_empty() {
            assert_eq!(verdict, Ok(()));
        } else {
            assert_eq!(verdict, Err(format!("predicates failed: [ {} ]", missing.join(", "))));
        }
    }
}
