use rumbas::match_answers::{
    MatchAnswersItem, MatchAnswersItemMarks, MatchAnswersWithChoices, MultipleChoiceMatchAnswerData,
    MultipleChoiceMatchAnswers,
};
use rumbas::value::VariableValued;

fn strings(v: &[&str]) -> Vec<String> {
    v.iter().map(|x| x.to_string()).collect()
}

fn item(statement: &str, marks: Vec<(i64, &str)>) -> MatchAnswersItem {
    MatchAnswersItem {
        statement: statement.to_string(),
        answer_marks: marks
            .into_iter()
            .map(|(m, a)| MatchAnswersItemMarks { marks: m, answer: a.to_string() })
            .collect(),
    }
}

fn literal<T>(v: Option<&VariableValued<T>>) -> &T {
    match v {
        Some(VariableValued::Value(x)) => x,
        _ => panic!("a literal value"),
    }
}

#[test]
fn item_based_answers_become_a_marking_matrix() {
    let data = MultipleChoiceMatchAnswerData::ItemBased(MultipleChoiceMatchAnswers {
        answers: strings(&["yes", "no"]),
        items: vec![
            item("2 is even", vec![(1, "yes")]),
            item("3 is even", vec![(2, "no"), (-1, "yes"), (5, "no")]),
        ],
    });
    let numbas = data.to_numbas();
    assert_eq!(literal(Some(&numbas.answers)), &strings(&["yes", "no"]));
    assert_eq!(literal(Some(&numbas.choices)), &strings(&["2 is even", "3 is even"]));
    assert_eq!(literal(numbas.marking_matrix.as_ref()), &vec![vec![1, 0], vec![-1, 2]]);
}

#[test]
fn regular_arrays_are_read_item_by_item() {
    let numbas = MatchAnswersWithChoices {
        answers: VariableValued::Value(strings(&["a", "b"])),
        choices: VariableValued::Value(strings(&["x", "y", "z"])),
        marking_matrix: Some(VariableValued::Value(vec![vec![1, 0], vec![0, 1], vec![2, 3]])),
    };
    match numbas.to_rumbas() {
        Ok(MultipleChoiceMatchAnswerData::ItemBased(x)) => {
            assert_eq!(x.answers, strings(&["a", "b"]));
            assert_eq!(x.items.len(), 3);
            assert_eq!(x.items[2].statement, "z");
            assert_eq!(x.items[2].answer_marks[0].marks, 2);
            assert_eq!(x.items[2].answer_marks[1].answer, "b");
            assert_eq!(x.items[2].answer_marks[1].marks, 3);
            let back = MultipleChoiceMatchAnswerData::ItemBased(x).to_numbas();
            assert_eq!(literal(back.marking_matrix.as_ref()), &vec![vec![1, 0], vec![0, 1], vec![2, 3]]);
            assert_eq!(literal(Some(&back.choices)), &strings(&["x", "y", "z"]));
        }
        _ => panic!("the arrays are regular"),
    }
}

#[test]
fn irregular_arrays_are_kept_as_they_are() {
    let short_row = MatchAnswersWithChoices {
        answers: VariableValued::Value(strings(&["a", "b"])),
        choices: VariableValued::Value(strings(&["x"])),
        marking_matrix: Some(VariableValued::Value(vec![vec![1]])),
    };
    assert!(matches!(short_row.to_rumbas(), Ok(MultipleChoiceMatchAnswerData::NumbasLike(_))));

    let repeated = MatchAnswersWithChoices {
        answers: VariableValued::Value(strings(&["a", "a"])),
        choices: VariableValued::Value(strings(&["x"])),
        marking_matrix: Some(VariableValued::Value(vec![vec![1, 2]])),
    };
    match repeated.to_rumbas() {
        Ok(MultipleChoiceMatchAnswerData::NumbasLike(n)) => {
            assert_eq!(literal(Some(&n.marks)), &vec![vec![1, 2]]);
            let back = MultipleChoiceMatchAnswerData::NumbasLike(n).to_numbas();
            assert_eq!(literal(back.marking_matrix.as_ref()), &vec![vec![1, 2]]);
        }
        _ => panic!("repeated answers cannot be told apart"),
    }

    let variable = MatchAnswersWithChoices {
        answers: VariableValued::Variable("answers".to_string()),
        choices: VariableValued::Value(strings(&["x"])),
        marking_matrix: Some(VariableValued::Value(vec![vec![1]])),
    };
    match variable.to_rumbas() {
        Ok(MultipleChoiceMatchAnswerData::NumbasLike(n)) => {
            assert!(matches!(&n.answers, VariableValued::Variable(v) if v == "answers"))
        }
        _ => panic!("a variable is kept"),
    }
}

#[test]
fn missing_marking_matrix_is_an_error() {
    let numbas = MatchAnswersWithChoices {
        answers: VariableValued::Value(strings(&["a"])),
        choices: VariableValued::Value(strings(&["x"])),
        marking_matrix: None,
    };
    assert!(numbas.to_rumbas().is_err());
}
