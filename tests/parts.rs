use rumbas::check::InputCheckResult;
use rumbas::localize::{JMENote, JMENotes, RumbasCheckPath, TranslatableString};
use rumbas::matrix::{QuestionPartMatrixDimension, QuestionPartMatrixDimensions};
use rumbas::value::{Noneable, Value, VariableValued};

#[derive(Clone)]
pub struct Test {
    field1: bool,
    field2: f64,
}

#[derive(Clone)]
pub struct TestInput {
    field1: Value<bool>,
    field2: Value<f64>,
}

#[derive(Clone)]
pub struct Test2 {
    field1: Vec<Test>,
    field2: f64,
}

#[derive(Clone)]
pub struct Test2Input {
    field1: Value<Vec<TestInput>>,
    field2: Value<f64>,
}

#[test]
fn create_test2() {
    let test2 = Test2 {
        field1: vec![Test {
            field1: true,
            field2: 64.8,
        }],
        field2: 65.0,
    };
    assert!(test2.field1[0].field1);
    assert_eq!(test2.field1[0].field2, 64.8);
    assert_eq!(test2.field2, 65.0);

    let test2 = Test2Input {
        field1: Value::Normal(vec![TestInput {
            field1: Value::Normal(true),
            field2: Value::Normal(64.8),
        }]),
        field2: Value::Normal(65.0),
    };
    assert!(test2.field1.is_provided());
    assert!(!test2.field2.is_absent());
    let items = test2.field1.unwrap_or(vec![]);
    assert!(items[0].field1.is_provided());
    assert_eq!(items[0].field2.clone().unwrap_or(0.0), 64.8);
    assert_eq!(test2.field2.unwrap_or(0.0), 65.0);
}

fn lit(n: usize) -> VariableValued<usize> {
    VariableValued::Value(n)
}

fn shown(v: &VariableValued<usize>) -> String {
    match v {
        VariableValued::Value(n) => n.to_string(),
        VariableValued::Variable(s) => s.clone(),
    }
}

#[test]
fn equal_range_is_fixed() {
    let d = QuestionPartMatrixDimension::from_range(lit(3), lit(3), lit(3));
    assert!(matches!(d, QuestionPartMatrixDimension::Fixed(VariableValued::Value(3))));
    assert!(!d.is_resizable());
    assert_eq!(shown(&d.min()), "3");
    assert_eq!(shown(&d.default()), "3");
    assert_eq!(shown(&d.max()), "3");
}

#[test]
fn open_range_reads_back() {
    let d = QuestionPartMatrixDimension::from_range(lit(1), lit(2), lit(0));
    match &d {
        QuestionPartMatrixDimension::Resizable(r) => assert!(matches!(r.max, Value::Normal(Noneable::Nothing))),
        _ => panic!("the sizes differ"),
    }
    assert!(d.is_resizable());
    assert_eq!(shown(&d.min()), "1");
    assert_eq!(shown(&d.default()), "2");
    assert_eq!(shown(&d.max()), "0");

    let v = QuestionPartMatrixDimension::from_range(VariableValued::Variable("n".to_string()), lit(2), lit(5));
    assert_eq!(shown(&v.min()), "n");
    assert_eq!(shown(&v.max()), "5");
    match &v {
        QuestionPartMatrixDimension::Resizable(r) => assert!(matches!(r.max, Value::Normal(Noneable::NotNone(VariableValued::Value(5))))),
        _ => panic!("the sizes differ"),
    }
}

#[test]
fn dimensions_resize_when_either_axis_does() {
    let fixed = QuestionPartMatrixDimensions {
        rows: Value::Normal(QuestionPartMatrixDimension::from_range(lit(2), lit(2), lit(2))),
        columns: Value::Normal(QuestionPartMatrixDimension::from_range(lit(4), lit(4), lit(4))),
    };
    assert!(!fixed.is_resizable());
    let some = QuestionPartMatrixDimensions {
        rows: Value::Normal(QuestionPartMatrixDimension::from_range(lit(2), lit(2), lit(2))),
        columns: Value::Normal(QuestionPartMatrixDimension::from_range(lit(1), lit(4), lit(4))),
    };
    assert!(some.is_resizable());
}

fn translatable(content: Option<&str>, translations: Vec<(&str, &str)>) -> TranslatableString {
    TranslatableString {
        content: content.map(|c| c.to_string()),
        translations: translations.into_iter().map(|(l, t)| (l.to_string(), t.to_string())).collect(),
    }
}

#[test]
fn notes_render_for_a_locale() {
    let notes = JMENotes(vec![
        JMENote {
            name: "mark".to_string(),
            description: Noneable::NotNone("the mark".to_string()),
            expression: translatable(Some("1"), vec![("nl", "2")]),
        },
        JMENote {
            name: "total".to_string(),
            description: Noneable::Nothing,
            expression: translatable(Some("mark"), vec![]),
        },
    ]);
    let en = notes.to_numbas_safe(&"en".to_string()).ok().expect("every note has text");
    assert_eq!(en, "mark(the mark):1\n\ntotal:mark");
    let nl = notes.to_numbas_safe(&"nl".to_string()).ok().expect("every note has text");
    assert_eq!(nl, "mark(the mark):2\n\ntotal:mark");
}

#[test]
fn untranslated_note_is_reported() {
    let notes = JMENotes(vec![
        JMENote {
            name: "a".to_string(),
            description: Noneable::Nothing,
            expression: translatable(Some("1"), vec![]),
        },
        JMENote {
            name: "b".to_string(),
            description: Noneable::Nothing,
            expression: translatable(None, vec![("nl", "x")]),
        },
    ]);
    match notes.to_numbas_safe(&"en".to_string()) {
        Err(c) => {
            assert_eq!(c.missing_values.len(), 1);
            assert_eq!(c.missing_values[0].path.parts, vec!["1".to_string(), "expression".to_string()]);
            assert_eq!(c.missing_values[0].path.last_part, Some("en".to_string()));
        }
        Ok(_) => panic!("no English text for b"),
    }
    assert!(notes.to_numbas_safe(&"nl".to_string()).is_ok());
}

#[test]
fn locale_paths_grow_outwards() {
    let mut p = RumbasCheckPath::with_last(Some("en".to_string()));
    p.add("expression".to_string());
    p.add("0".to_string());
    assert_eq!(p.parts, vec!["0".to_string(), "expression".to_string()]);
    assert_eq!(p.render(), "0.expression.en");
    let q = RumbasCheckPath::without_last();
    assert!(q.parts.is_empty() && q.last_part.is_none());
}

#[test]
fn resolving_a_value_reports_its_state() {
    assert_eq!(Value::Normal(7u8).resolve().ok(), Some(7u8));
    match Value::<u8>::Absent.resolve() {
        Err(c) => {
            let m = c.missing_fields();
            assert_eq!(m.len(), 1);
            assert!(m[0].path.parts.is_empty() && m[0].path.last_part.is_none());
        }
        Ok(_) => panic!("absent"),
    }
    match Value::<u8>::Template("k".to_string()).resolve() {
        Err(c) => assert_eq!(c.missing_fields()[0].path.last_part, Some("k".to_string())),
        Ok(_) => panic!("a placeholder"),
    }
    match Value::<u8>::Invalid("x: [".to_string()).resolve() {
        Err(c) => {
            assert!(c.missing_fields().is_empty());
            assert_eq!(c.invalid_yaml_fields()[0].data, "x: [");
        }
        Ok(_) => panic!("invalid"),
    }
}

#[test]
fn check_results_union_and_extend() {
    let mut a = InputCheckResult::from_missing(Some("name".to_string()));
    let b = InputCheckResult::from_error_message("Failed reading file: a.html".to_string());
    let c = InputCheckResult::from_invalid("3x".to_string(), Some("not a number".to_string()));
    assert!(InputCheckResult::empty().is_empty());
    a.union(&b);
    a.union(&c);
    a.union(&InputCheckResult::from_missing(Some("name".to_string())));
    a.extend_path("exam".to_string());
    let missing: Vec<String> = a.missing_fields().iter().map(|m| m.render()).collect();
    assert_eq!(missing, vec!["exam.name".to_string(), "exam.name".to_string()]);
    assert_eq!(a.error_messages(), vec!["Failed reading file: a.html".to_string()]);
    let invalid = a.invalid_yaml_fields();
    assert_eq!(invalid[0].path.render(), "exam");
    assert_eq!(invalid[0].error, Some("not a number".to_string()));
    assert!(!a.is_empty());
}
