use rumbas::check::InputCheckPath;
use rumbas::files::{FileCache, FileToLoad, LoadedFile, LoadedLocalizedFile, LoadedNormalFile};
use rumbas::template::{ExamFileType, ParseError, TemplateChain, TemplateFile};
use rumbas::tree::{ObjectKind, Tree, TreeInput};
use rumbas::value::Value;

fn s(x: &str) -> String {
    x.to_string()
}

fn field(k: &str, v: Value<TreeInput>) -> (String, Value<TreeInput>) {
    (s(k), v)
}

fn text(x: &str) -> Value<TreeInput> {
    Value::Normal(TreeInput::Text(s(x)))
}

fn file(p: &str, localized: bool) -> FileToLoad {
    FileToLoad { file_path: s(p), locale_dependant: localized }
}

fn rendered_missing(doc: &TreeInput) -> Vec<String> {
    doc.find_missing().missing_fields().iter().map(|m| m.render()).collect()
}

#[test]
fn missing_path_is_dotted_from_the_root() {
    let part = |marks: Value<TreeInput>| {
        Value::Normal(TreeInput::Object(ObjectKind::Record, vec![field("marks", marks), field("prompt", text("p"))]))
    };
    let parts = vec![
        part(Value::Normal(TreeInput::Int(1))),
        part(Value::Normal(TreeInput::Int(2))),
        part(Value::Absent),
    ];
    let question = TreeInput::Object(ObjectKind::Record, vec![field("parts", Value::Normal(TreeInput::List(parts)))]);
    let doc = TreeInput::Object(ObjectKind::Record, vec![field("question", Value::Normal(question))]);
    assert_eq!(rendered_missing(&doc), vec![s("question.parts.2.marks")]);
}

#[test]
fn absent_name_is_reported_and_filled_from_defaults() {
    let mut doc = TreeInput::Object(ObjectKind::Record, vec![
        field("name", Value::Absent),
        field("duration", Value::Normal(TreeInput::Int(30))),
    ]);
    assert_eq!(rendered_missing(&doc), vec![s("name")]);
    assert!(doc.to_normal_safe().is_err());

    let defaults = vec![TreeInput::Object(ObjectKind::Record, vec![
        field("name", text("Untitled")),
        field("duration", Value::Absent),
    ])];
    doc.combine_with_defaults(&defaults);
    match &doc {
        TreeInput::Object(_, fs) => {
            assert_eq!(fs.len(), 2);
            assert_eq!(fs[0].0, "name");
            assert!(matches!(&fs[0].1, Value::Normal(TreeInput::Text(t)) if t == "Untitled"));
            assert_eq!(fs[1].0, "duration");
            assert!(matches!(&fs[1].1, Value::Normal(TreeInput::Int(30))));
        }
        _ => panic!("the document stays an object"),
    }
    let normal = doc.to_normal_safe().ok().expect("nothing is missing any more");
    match normal {
        Tree::Object(_, fs) => {
            assert!(matches!(&fs[0].1, Tree::Text(t) if t == "Untitled"));
            assert!(matches!(&fs[1].1, Tree::Int(30)));
        }
        _ => panic!("resolves to an object"),
    }
}

#[test]
fn overlay_keeps_a_complete_document() {
    let mut doc = TreeInput::Object(ObjectKind::Record, vec![
        field("name", text("Exam")),
        field("settings", Value::Normal(TreeInput::Object(ObjectKind::Record, vec![field("shuffle", Value::Normal(TreeInput::Bool(true)))]))),
    ]);
    let defaults = vec![
        TreeInput::Object(ObjectKind::Record, vec![
            field("name", text("Other")),
            field("settings", Value::Normal(TreeInput::Object(ObjectKind::Record, vec![field("shuffle", Value::Normal(TreeInput::Bool(false)))]))),
        ]),
        TreeInput::Int(3),
    ];
    doc.combine_with_defaults(&defaults);
    assert!(rendered_missing(&doc).is_empty());
    match doc.to_normal_safe().ok().expect("complete") {
        Tree::Object(_, fs) => {
            assert!(matches!(&fs[0].1, Tree::Text(t) if t == "Exam"));
            match &fs[1].1 {
                Tree::Object(_, inner) => assert!(matches!(inner[0].1, Tree::Bool(true))),
                _ => panic!("settings stay an object"),
            }
        }
        _ => panic!("resolves to an object"),
    }
}

#[test]
fn overlay_merges_nested_objects_field_by_field() {
    let mut doc = TreeInput::Object(ObjectKind::Record, vec![field(
        "settings",
        Value::Normal(TreeInput::Object(ObjectKind::Record, vec![
            field("shuffle", Value::Normal(TreeInput::Bool(true))),
            field("pass_mark", Value::Absent),
        ])),
    )]);
    let fallback = TreeInput::Object(ObjectKind::Record, vec![field(
        "settings",
        Value::Normal(TreeInput::Object(ObjectKind::Record, vec![
            field("pass_mark", Value::Normal(TreeInput::Int(50))),
            field("shuffle", Value::Normal(TreeInput::Bool(false))),
        ])),
    )]);
    doc.overwrite(&fallback);
    match doc.to_normal_safe().ok().expect("complete") {
        Tree::Object(_, fs) => match &fs[0].1 {
            Tree::Object(_, inner) => {
                assert!(matches!(inner[0].1, Tree::Bool(true)));
                assert!(matches!(inner[1].1, Tree::Int(50)));
            }
            _ => panic!("settings stay an object"),
        },
        _ => panic!("resolves to an object"),
    }
}

#[test]
fn lifted_documents_round_trip() {
    let normal = Tree::Object(ObjectKind::Record, vec![
        (s("name"), Tree::Text(s("Exam"))),
        (s("marks"), Tree::List(vec![Tree::Int(1), Tree::Int(-2)])),
        (s("open"), Tree::Bool(false)),
    ]);
    let lifted = TreeInput::from_normal(normal);
    assert!(lifted.find_missing().is_empty());
    match lifted.to_normal_safe().ok().expect("lifting leaves nothing missing") {
        Tree::Object(_, fs) => {
            assert_eq!(fs.len(), 3);
            assert!(matches!(&fs[0].1, Tree::Text(t) if t == "Exam"));
            match &fs[1].1 {
                Tree::List(v) => {
                    assert_eq!(v.len(), 2);
                    assert!(matches!(v[1], Tree::Int(-2)));
                }
                _ => panic!("marks stay a list"),
            }
            assert!(matches!(fs[2].1, Tree::Bool(false)));
        }
        _ => panic!("resolves to an object"),
    }
}

#[test]
fn every_kind_of_problem_is_collected() {
    let doc = TreeInput::Object(ObjectKind::Record, vec![
        field("a", Value::Absent),
        field("b", Value::Template(s("title"))),
        field("c", Value::Invalid(s("[1, 2"))),
        field("d", Value::Normal(TreeInput::File(file("intro.html", false)))),
    ]);
    let check = doc.find_missing();
    assert!(!check.is_empty());
    let missing: Vec<String> = check.missing_fields().iter().map(|m| m.render()).collect();
    assert_eq!(missing, vec![s("a"), s("b.title"), s("d.intro.html")]);
    let invalid = check.invalid_yaml_fields();
    assert_eq!(invalid.len(), 1);
    assert_eq!(invalid[0].path.render(), "c");
    assert_eq!(invalid[0].data, "[1, 2");
    assert!(doc.to_normal_safe().is_err());
}

#[test]
fn template_values_fill_placeholders() {
    let mut doc = TreeInput::Object(ObjectKind::Record, vec![
        field("title", Value::Template(s("name"))),
        field("other", Value::Template(s("unknown"))),
    ]);
    doc.insert_template_value("name", &Tree::Text(s("Algebra")));
    let missing = rendered_missing(&doc);
    assert_eq!(missing, vec![s("other.unknown")]);
    match &doc {
        TreeInput::Object(_, fs) => assert!(matches!(&fs[0].1, Value::Normal(TreeInput::Text(t)) if t == "Algebra")),
        _ => panic!("stays an object"),
    }
}

#[test]
fn loaded_files_replace_their_references() {
    let mut doc = TreeInput::List(vec![
        Value::Normal(TreeInput::File(file("a.html", false))),
        Value::Normal(TreeInput::File(file("b.html", true))),
        Value::Normal(TreeInput::File(file("a.html", false))),
    ]);
    let wanted = doc.files_to_load();
    assert_eq!(wanted.len(), 3);
    let deps = doc.dependencies();
    assert_eq!(deps, vec![s("a.html"), s("b.html")]);

    let loaded = vec![(
        file("a.html", false),
        LoadedFile::Normal(LoadedNormalFile { file_path: s("a.html"), content: s("<p>A</p>") }),
    )];
    doc.insert_loaded_files(&loaded);
    let left = doc.files_to_load();
    assert_eq!(left.len(), 1);
    assert_eq!(left[0].file_path, "b.html");
    assert!(left[0].locale_dependant);
    assert_eq!(rendered_missing(&doc), vec![s("1.b.html")]);

    let localized = vec![(
        file("b.html", true),
        LoadedFile::Localized(LoadedLocalizedFile {
            file_path: s("b.html"),
            content: Some(s("<p>B</p>")),
            localized_content: vec![(s("nl"), s("<p>B nl</p>"))],
        }),
    )];
    doc.insert_loaded_files(&localized);
    assert!(doc.files_to_load().is_empty());
    let normal = doc.to_normal_safe().ok().expect("all files loaded");
    match &normal {
        Tree::List(v) => {
            assert!(matches!(&v[0], Tree::Text(t) if t == "<p>A</p>"));
            assert!(matches!(&v[1], Tree::Translated(_)));
            assert!(matches!(&v[2], Tree::Text(t) if t == "<p>A</p>"));
        }
        _ => panic!("resolves to a list"),
    }
    for (locale, expected) in [("nl", "<p>B nl</p>"), ("en", "<p>B</p>")] {
        match normal.to_numbas_safe(&s(locale)).ok().expect("a text for every locale") {
            Tree::List(v) => {
                assert!(matches!(&v[0], Tree::Text(t) if t == "<p>A</p>"));
                assert!(matches!(&v[1], Tree::Text(t) if t == expected));
            }
            _ => panic!("stays a list"),
        }
    }
}

#[test]
fn texts_without_a_locale_are_reported() {
    let only_dutch = LoadedFile::Localized(LoadedLocalizedFile {
        file_path: s("b.html"),
        content: None,
        localized_content: vec![(s("nl"), s("hallo"))],
    });
    let mut doc = TreeInput::Object(
        ObjectKind::Record,
        vec![field("intro", Value::Normal(TreeInput::File(file("b.html", true)))), field("title", text("T"))],
    );
    doc.insert_loaded_files(&vec![(file("b.html", true), only_dutch)]);
    let normal = doc.to_normal_safe().ok().expect("the file is loaded");
    match normal.to_numbas_safe(&s("en")) {
        Err(c) => {
            assert_eq!(c.missing_values.len(), 1);
            assert_eq!(c.missing_values[0].path.parts, vec![s("intro")]);
            assert_eq!(c.missing_values[0].path.last_part, Some(s("en")));
        }
        Ok(_) => panic!("no English text"),
    }
    assert!(normal.check(&s("nl")).is_empty());
    match normal.to_numbas(&s("nl")) {
        Tree::Object(_, fs) => assert!(matches!(&fs[0].1, Tree::Text(t) if t == "hallo")),
        _ => panic!("stays an object"),
    }
}

#[test]
fn file_references_compare_by_path_and_locale() {
    assert!(file("a", true) == file("a", true));
    assert!(file("a", true) != file("a", false));
    assert!(file("a", true) != file("b", true));
}

#[test]
fn cache_reads_each_file_once() {
    let mut cache = FileCache::new();
    let wanted = vec![file("a", false), file("a", false), file("b", true)];
    let first = cache.to_read(&wanted);
    assert_eq!(first.len(), 2);
    assert_eq!(first[0].file_path, "a");
    assert_eq!(first[1].file_path, "b");
    cache.store(file("a", false), LoadedFile::Normal(LoadedNormalFile { file_path: s("a"), content: s("one") }));
    cache.store(file("a", false), LoadedFile::Normal(LoadedNormalFile { file_path: s("a"), content: s("two") }));
    match cache.get(&file("a", false)) {
        Some(LoadedFile::Normal(n)) => assert_eq!(n.content, "one"),
        _ => panic!("a is cached"),
    }
    let second = cache.to_read(&wanted);
    assert_eq!(second.len(), 1);
    assert_eq!(second[0].file_path, "b");
    assert!(cache.get(&file("a", true)).is_none());
}

fn template(path: &str, data: Vec<(String, Tree)>) -> ExamFileType {
    ExamFileType::Template(TemplateFile { relative_template_path: s(path), data })
}

#[test]
fn cyclic_templates_are_refused() {
    let library = vec![
        (s("A"), template("B", vec![])),
        (s("B"), template("A", vec![])),
    ];
    match rumbas::template::expand_file(&template("A", vec![]), &library) {
        Err(ParseError::RecursiveTemplates(e)) => {
            assert_eq!(e.0, "A");
            assert_eq!(e.1, vec![s("A"), s("B")]);
        }
        _ => panic!("the cycle is found"),
    }
}

#[test]
fn templates_expand_with_their_values() {
    let body = TreeInput::Object(ObjectKind::Record, vec![
        field("title", Value::Template(s("title"))),
        field("duration", Value::Template(s("minutes"))),
    ]);
    let library = vec![
        (s("outer"), template("inner", vec![(s("minutes"), Tree::Int(45))])),
        (s("inner"), ExamFileType::Normal(body)),
    ];
    let doc = rumbas::template::expand_file(&template("outer", vec![(s("title"), Tree::Text(s("Calculus")))]), &library)
        .ok()
        .expect("expands");
    match doc.to_normal_safe().ok().expect("every placeholder filled") {
        Tree::Object(_, fs) => {
            assert!(matches!(&fs[0].1, Tree::Text(t) if t == "Calculus"));
            assert!(matches!(&fs[1].1, Tree::Int(45)));
        }
        _ => panic!("resolves to an object"),
    }
}

#[test]
fn missing_template_file_is_a_read_error() {
    let library = vec![(s("A"), template("missing", vec![]))];
    match rumbas::template::expand_file(&template("A", vec![]), &library) {
        Err(ParseError::FileReadError(e)) => assert_eq!(e.0, "missing"),
        _ => panic!("the file is not there"),
    }
}

#[test]
fn chain_refuses_reentry() {
    let mut chain = TemplateChain::new();
    assert!(chain.enter(&s("A")).is_ok());
    assert!(chain.enter(&s("B")).is_ok());
    match chain.enter(&s("A")) {
        Err(e) => {
            assert_eq!(e.0, "A");
            assert_eq!(e.1, vec![s("A"), s("B")]);
        }
        Ok(()) => panic!("A is being expanded"),
    }
    chain.leave();
    chain.leave();
    assert!(chain.enter(&s("A")).is_ok());
}

#[test]
fn paths_grow_outwards() {
    let mut p = InputCheckPath::with_last(Some(s("marks")));
    p.add(s("2"));
    p.add(s("parts"));
    assert_eq!(p.render(), "parts.2.marks");
    let mut q = InputCheckPath::without_last();
    assert_eq!(q.render(), "");
    q.add(s("name"));
    assert_eq!(q.render(), "name");
}

#[test]
fn list_indices_are_written_in_decimal() {
    let mut items = Vec::new();
    for _ in 0..12 {
        items.push(Value::Normal(TreeInput::Int(0)));
    }
    items.push(Value::Absent);
    let doc = TreeInput::List(items);
    assert_eq!(rendered_missing(&doc), vec![s("12")]);
}

#[test]
fn dictionary_entries_are_reported_by_index() {
    let settings = TreeInput::Object(
        ObjectKind::Dictionary,
        vec![field("alpha", Value::Normal(TreeInput::Int(1))), field("beta", Value::Absent)],
    );
    let doc = TreeInput::Object(ObjectKind::Record, vec![field("settings", Value::Normal(settings))]);
    assert_eq!(rendered_missing(&doc), vec![s("settings.1")]);
}

#[test]
fn dictionaries_are_not_merged_with_defaults() {
    let mut doc = TreeInput::Object(
        ObjectKind::Record,
        vec![field(
            "variables",
            Value::Normal(TreeInput::Object(ObjectKind::Dictionary, vec![field("x", Value::Absent)])),
        )],
    );
    let defaults = vec![TreeInput::Object(
        ObjectKind::Record,
        vec![field(
            "variables",
            Value::Normal(TreeInput::Object(ObjectKind::Dictionary, vec![field("x", Value::Normal(TreeInput::Int(1)))])),
        )],
    )];
    doc.combine_with_defaults(&defaults);
    assert_eq!(rendered_missing(&doc), vec![s("variables.0")]);
}

#[test]
fn text_fields_are_read_by_their_prefix() {
    match rumbas::syntax::text_value(s("template:title")) {
        Value::Template(k) => assert_eq!(k, "title"),
        _ => panic!("a placeholder"),
    }
    match rumbas::syntax::text_value(s("file:intro.html")) {
        Value::Normal(TreeInput::File(f)) => {
            assert_eq!(f.file_path, "intro.html");
            assert!(!f.locale_dependant);
        }
        _ => panic!("a file reference"),
    }
    match rumbas::syntax::text_value(s("templates: none")) {
        Value::Normal(TreeInput::Text(t)) => assert_eq!(t, "templates: none"),
        _ => panic!("plain text"),
    }
    match rumbas::syntax::text_value(s("")) {
        Value::Normal(TreeInput::Text(t)) => assert_eq!(t, ""),
        _ => panic!("plain text"),
    }
}

#[test]
fn documents_are_told_apart_by_folder() {
    use_kind("exams/final.yaml", Some(rumbas::project::DocumentKind::Exam));
    use_kind("questions/algebra/one.yaml", Some(rumbas::project::DocumentKind::Question));
    use_kind("exam/final.yaml", None);
    use_kind("", None);
}

fn use_kind(path: &str, expected: Option<rumbas::project::DocumentKind>) {
    match rumbas::project::document_kind(&s(path)) {
        Ok(kind) => assert_eq!(Some(kind), expected),
        Err(e) => {
            assert_eq!(expected, None);
            assert_eq!(e.0, path);
        }
    }
}
