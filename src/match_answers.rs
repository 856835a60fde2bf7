use vstd::prelude::*;
use crate::check::string_views;
use crate::value::VariableValued;

verus! {

/// A value that is given literally, or as the name of a question variable.
pub enum VarView<M> {
    Variable(Seq<char>),
    Value(M),
}

impl View for VariableValued<Vec<String>> {
    type V = VarView<Seq<Seq<char>>>;

    open spec fn view(&self) -> VarView<Seq<Seq<char>>> {
        match self {
            VariableValued::Variable(s) => VarView::Variable(s@),
            VariableValued::Value(v) => VarView::Value(string_views(v@)),
        }
    }
}

pub open spec fn matrix_view(m: Seq<Vec<i64>>) -> Seq<Seq<i64>> {
    Seq::new(m.len(), |i: int| m[i]@)
}

impl View for VariableValued<Vec<Vec<i64>>> {
    type V = VarView<Seq<Seq<i64>>>;

    open spec fn view(&self) -> VarView<Seq<Seq<i64>>> {
        match self {
            VariableValued::Variable(s) => VarView::Variable(s@),
            VariableValued::Value(v) => VarView::Value(matrix_view(v@)),
        }
    }
}

fn copy_texts(v: &VariableValued<Vec<String>>) -> (r: VariableValued<Vec<String>>)
    ensures
        r@ == v@,
{
    match v {
        VariableValued::Variable(s) => VariableValued::Variable(s.clone()),
        VariableValued::Value(items) => VariableValued::Value(crate::check::copy_strings(items)),
    }
}

fn copy_row(v: &Vec<i64>) -> (r: Vec<i64>)
    ensures
        r@ == v@,
{
    let mut r: Vec<i64> = Vec::new();
    let mut i: usize = 0;
    while i < v.len()
        invariant
            i <= v.len(),
            r@ == v@.subrange(0, i as int),
        decreases v.len() - i,
    {
        r.push(v[i]);
        i += 1;
        assert(r@ =~= v@.subrange(0, i as int));
    }
    assert(v@.subrange(0, v.len() as int) =~= v@);
    r
}

fn copy_matrix(v: &VariableValued<Vec<Vec<i64>>>) -> (r: VariableValued<Vec<Vec<i64>>>)
    ensures
        r@ == v@,
{
    match v {
        VariableValued::Variable(s) => VariableValued::Variable(s.clone()),
        VariableValued::Value(rows) => {
            let mut out: Vec<Vec<i64>> = Vec::new();
            let mut i: usize = 0;
            while i < rows.len()
                invariant
                    i <= rows.len(),
                    out@.len() == i,
                    forall|j: int| 0 <= j < i ==> (#[trigger] out@[j])@ == rows@[j]@,
                decreases rows.len() - i,
            {
                out.push(copy_row(&rows[i]));
                i += 1;
            }
            assert(matrix_view(out@) =~= matrix_view(rows@));
            VariableValued::Value(out)
        },
    }
}

/// The marks an item gives for one answer.
#[derive(Clone, Debug)]
pub struct MatchAnswersItemMarks {
    pub marks: i64,
    pub answer: String,
}

/// A statement the student matches with answers.
#[derive(Clone, Debug)]
pub struct MatchAnswersItem {
    pub statement: String,
    pub answer_marks: Vec<MatchAnswersItemMarks>,
}

/// Answers and items, each item listing the marks per answer.
#[derive(Clone, Debug)]
pub struct MultipleChoiceMatchAnswers {
    pub answers: Vec<String>,
    pub items: Vec<MatchAnswersItem>,
}

/// The answers, choices and marking matrix as the target schema has them.
#[derive(Clone, Debug)]
pub struct MultipleChoiceMatchAnswerDataNumbasLike {
    pub answers: VariableValued<Vec<String>>,
    pub choices: VariableValued<Vec<String>>,
    pub marks: VariableValued<Vec<Vec<i64>>>,
}

#[derive(Clone, Debug)]
pub enum MultipleChoiceMatchAnswerData {
    ItemBased(MultipleChoiceMatchAnswers),
    NumbasLike(MultipleChoiceMatchAnswerDataNumbasLike),
}

/// The answer data of a match-answers part in the target schema: rows of
/// the marking matrix follow the choices, columns the answers.
#[derive(Clone, Debug)]
pub struct MatchAnswersWithChoices {
    pub answers: VariableValued<Vec<String>>,
    pub choices: VariableValued<Vec<String>>,
    pub marking_matrix: Option<VariableValued<Vec<Vec<i64>>>>,
}

/// The target schema's data came without a marking matrix.
#[derive(Clone, Debug)]
pub struct MissingMarkingMatrix;

pub struct MarksView {
    pub marks: i64,
    pub answer: Seq<char>,
}

pub struct ItemView {
    pub statement: Seq<char>,
    pub answer_marks: Seq<MarksView>,
}

pub struct ItemsView {
    pub answers: Seq<Seq<char>>,
    pub items: Seq<ItemView>,
}

pub struct NumbasLikeView {
    pub answers: VarView<Seq<Seq<char>>>,
    pub choices: VarView<Seq<Seq<char>>>,
    pub marks: VarView<Seq<Seq<i64>>>,
}

pub enum AnswerDataView {
    ItemBased(ItemsView),
    NumbasLike(NumbasLikeView),
}

pub struct ChoicesView {
    pub answers: VarView<Seq<Seq<char>>>,
    pub choices: VarView<Seq<Seq<char>>>,
    pub matrix: Option<VarView<Seq<Seq<i64>>>>,
}

impl View for MatchAnswersItem {
    type V = ItemView;

    open spec fn view(&self) -> ItemView {
        ItemView {
            statement: self.statement@,
            answer_marks: Seq::new(
                self.answer_marks@.len(),
                |j: int| MarksView { marks: self.answer_marks@[j].marks, answer: self.answer_marks@[j].answer@ },
            ),
        }
    }
}

impl View for MultipleChoiceMatchAnswerData {
    type V = AnswerDataView;

    open spec fn view(&self) -> AnswerDataView {
        match self {
            MultipleChoiceMatchAnswerData::ItemBased(x) => AnswerDataView::ItemBased(
                ItemsView { answers: string_views(x.answers@), items: Seq::new(x.items@.len(), |i: int| x.items@[i]@) },
            ),
            MultipleChoiceMatchAnswerData::NumbasLike(n) => AnswerDataView::NumbasLike(
                NumbasLikeView { answers: n.answers@, choices: n.choices@, marks: n.marks@ },
            ),
        }
    }
}

impl View for MatchAnswersWithChoices {
    type V = ChoicesView;

    open spec fn view(&self) -> ChoicesView {
        ChoicesView {
            answers: self.answers@,
            choices: self.choices@,
            matrix: match self.marking_matrix {
                Some(m) => Some(m@),
                None => None,
            },
        }
    }
}

/// The marks of the first entry for `answer`, and 0 where there is none.
pub open spec fn marks_for(ams: Seq<MarksView>, answer: Seq<char>) -> i64
    decreases ams.len(),
{
    if ams.len() == 0 {
        0
    } else if ams[0].answer == answer {
        ams[0].marks
    } else {
        marks_for(ams.subrange(1, ams.len() as int), answer)
    }
}

/// An item's row of the marking matrix: its marks for each answer in turn.
pub open spec fn item_row(item: ItemView, answers: Seq<Seq<char>>) -> Seq<i64> {
    Seq::new(answers.len(), |j: int| marks_for(item.answer_marks, answers[j]))
}

/// The data in the target schema's form.
pub open spec fn forward(d: AnswerDataView) -> ChoicesView {
    match d {
        AnswerDataView::ItemBased(x) => ChoicesView {
            answers: VarView::Value(x.answers),
            choices: VarView::Value(Seq::new(x.items.len(), |i: int| x.items[i].statement)),
            matrix: Some(VarView::Value(Seq::new(x.items.len(), |i: int| item_row(x.items[i], x.answers)))),
        },
        AnswerDataView::NumbasLike(n) => ChoicesView { answers: n.answers, choices: n.choices, matrix: Some(n.marks) },
    }
}

/// Literal answers, all different, literal choices, and a literal marking
/// matrix with a row per choice and a column per answer.
pub open spec fn regular(c: ChoicesView) -> bool {
    match (c.answers, c.choices, c.matrix) {
        (VarView::Value(a), VarView::Value(ch), Some(VarView::Value(m))) => {
            &&& a.no_duplicates()
            &&& m.len() == ch.len()
            &&& forall|i: int| 0 <= i < m.len() ==> (#[trigger] m[i]).len() == a.len()
        },
        _ => false,
    }
}

/// The data in the authoring form: item by item where the shapes are
/// regular, and kept as the target schema has it otherwise.
pub open spec fn backward(c: ChoicesView) -> Option<AnswerDataView> {
    if regular(c) {
        let a = c.answers->Value_0;
        let ch = c.choices->Value_0;
        let m = c.matrix->Some_0->Value_0;
        Some(AnswerDataView::ItemBased(ItemsView {
            answers: a,
            items: Seq::new(
                ch.len(),
                |i: int| ItemView {
                    statement: ch[i],
                    answer_marks: Seq::new(a.len(), |j: int| MarksView { marks: m[i][j], answer: a[j] }),
                },
            ),
        }))
    } else {
        match c.matrix {
            Some(m) => Some(AnswerDataView::NumbasLike(NumbasLikeView { answers: c.answers, choices: c.choices, marks: m })),
            None => None,
        }
    }
}

/// Item-based data in its canonical shape: answers all different, and every
/// item giving its marks for each answer in the order of the answers.
pub open spec fn canonical(x: ItemsView) -> bool {
    &&& x.answers.no_duplicates()
    &&& forall|i: int| 0 <= i < x.items.len() ==> (#[trigger] x.items[i]).answer_marks.len() == x.answers.len()
    &&& forall|i: int, j: int| 0 <= i < x.items.len() && 0 <= j < x.answers.len() ==> (#[trigger] x.items[i].answer_marks[j]).answer == x.answers[j]
}

pub proof fn lemma_marks_for_first(ams: Seq<MarksView>, answer: Seq<char>, j: int)
    requires
        0 <= j < ams.len(),
        ams[j].answer == answer,
        forall|k: int| 0 <= k < j ==> (#[trigger] ams[k]).answer != answer,
    ensures
        marks_for(ams, answer) == ams[j].marks,
    decreases j,
{
    if j > 0 {
        let rest = ams.subrange(1, ams.len() as int);
        assert forall|k: int| 0 <= k < j - 1 implies (#[trigger] rest[k]).answer != answer by {
            assert(rest[k] == ams[k + 1]);
        }
        lemma_marks_for_first(rest, answer, j - 1);
    }
}

fn marks_of(ams: &Vec<MatchAnswersItemMarks>, answer: &String) -> (r: i64)
    ensures
        r == marks_for(Seq::new(ams@.len(), |j: int| MarksView { marks: ams@[j].marks, answer: ams@[j].answer@ }), answer@),
{
    let ghost all = Seq::new(ams@.len(), |j: int| MarksView { marks: ams@[j].marks, answer: ams@[j].answer@ });
    let mut i: usize = 0;
    assert(all.subrange(0, all.len() as int) =~= all);
    while i < ams.len()
        invariant
            i <= ams.len(),
            all == Seq::new(ams@.len(), |j: int| MarksView { marks: ams@[j].marks, answer: ams@[j].answer@ }),
            marks_for(all, answer@) == marks_for(all.subrange(i as int, all.len() as int), answer@),
        decreases ams.len() - i,
    {
        let ghost rest = all.subrange(i as int, all.len() as int);
        assert(rest.subrange(1, rest.len() as int) =~= all.subrange(i + 1, all.len() as int));
        if ams[i].answer == *answer {
            return ams[i].marks;
        }
        i += 1;
    }
    0
}

impl MultipleChoiceMatchAnswerData {
    /// The data as the target schema holds it.
    pub fn to_numbas(&self) -> (r: MatchAnswersWithChoices)
        ensures
            r@ == forward(self@),
    {
        match self {
            MultipleChoiceMatchAnswerData::ItemBased(x) => {
                let ghost xv = self@->ItemBased_0;
                let mut choices: Vec<String> = Vec::new();
                let mut matrix: Vec<Vec<i64>> = Vec::new();
                let mut i: usize = 0;
                while i < x.items.len()
                    invariant
                        xv == self@->ItemBased_0,
                        *self == MultipleChoiceMatchAnswerData::ItemBased(*x),
                        i <= x.items.len(),
                        choices@.len() == i,
                        matrix@.len() == i,
                        forall|k: int| 0 <= k < i ==> (#[trigger] choices@[k])@ == xv.items[k].statement,
                        forall|k: int| 0 <= k < i ==> (#[trigger] matrix@[k])@ == item_row(xv.items[k], xv.answers),
                    decreases x.items.len() - i,
                {
                    let item = &x.items[i];
                    let mut row: Vec<i64> = Vec::new();
                    let mut j: usize = 0;
                    while j < x.answers.len()
                        invariant
                            xv == self@->ItemBased_0,
                            *self == MultipleChoiceMatchAnswerData::ItemBased(*x),
                            i < x.items.len(),
                            *item == x.items@[i as int],
                            j <= x.answers.len(),
                            row@.len() == j,
                            forall|k: int| 0 <= k < j ==> row@[k] == item_row(xv.items[i as int], xv.answers)[k],
                        decreases x.answers.len() - j,
                    {
                        row.push(marks_of(&item.answer_marks, &x.answers[j]));
                        j += 1;
                    }
                    assert(row@ =~= item_row(xv.items[i as int], xv.answers));
                    choices.push(item.statement.clone());
                    matrix.push(row);
                    i += 1;
                }
                let r = MatchAnswersWithChoices {
                    answers: VariableValued::Value(crate::check::copy_strings(&x.answers)),
                    choices: VariableValued::Value(choices),
                    marking_matrix: Some(VariableValued::Value(matrix)),
                };
                assert(string_views(choices@) =~= forward(self@).choices->Value_0);
                assert(matrix_view(matrix@) =~= forward(self@).matrix->Some_0->Value_0);
                r
            },
            MultipleChoiceMatchAnswerData::NumbasLike(n) => MatchAnswersWithChoices {
                answers: copy_texts(&n.answers),
                choices: copy_texts(&n.choices),
                marking_matrix: Some(copy_matrix(&n.marks)),
            },
        }
    }
}

fn distinct(v: &Vec<String>) -> (r: bool)
    ensures
        r == string_views(v@).no_duplicates(),
{
    let ghost sv = string_views(v@);
    let mut i: usize = 0;
    while i < v.len()
        invariant
            i <= v.len(),
            sv == string_views(v@),
            forall|a: int, b: int| 0 <= a < b < i ==> sv[a] != sv[b],
        decreases v.len() - i,
    {
        let mut k: usize = 0;
        while k < i
            invariant
                k <= i < v.len(),
                sv == string_views(v@),
                forall|a: int| 0 <= a < k ==> sv[a] != sv[i as int],
            decreases i - k,
        {
            if v[k] == v[i] {
                assert(sv[k as int] == sv[i as int] && k != i);
                assert(!sv.no_duplicates());
                return false;
            }
            k += 1;
        }
        i += 1;
    }
    true
}

impl MatchAnswersWithChoices {
    /// The data in the authoring form: item by item where the target schema's
    /// arrays are regular, and as they are otherwise; an error where the
    /// marking matrix is missing.
    pub fn to_rumbas(&self) -> (r: Result<MultipleChoiceMatchAnswerData, MissingMarkingMatrix>)
        ensures
            r is Err <==> backward(self@) is None,
            r matches Ok(d) ==> backward(self@) == Some(d@),
    {
        if let (VariableValued::Value(a), VariableValued::Value(ch), Some(VariableValued::Value(m))) = (
            &self.answers,
            &self.choices,
            &self.marking_matrix,
        ) {
            let mut shaped = m.len() == ch.len() && distinct(a);
            let ghost base = shaped;
            let mut i: usize = 0;
            while i < m.len()
                invariant
                    i <= m.len(),
                    shaped == (base && forall|k: int| 0 <= k < i ==> (#[trigger] m@[k])@.len() == a@.len()),
                decreases m.len() - i,
            {
                if m[i].len() != a.len() {
                    shaped = false;
                }
                i += 1;
            }
            assert(shaped == regular(self@)) by {
                let mv = matrix_view(m@);
                assert forall|k: int| 0 <= k < m@.len() implies (#[trigger] m@[k])@.len() == mv[k].len() by {}
                assert(string_views(a@).len() == a@.len());
                if regular(self@) {
                    assert forall|k: int| 0 <= k < m@.len() implies (#[trigger] m@[k])@.len() == a@.len() by {
                        assert(mv[k].len() == string_views(a@).len());
                    }
                }
                if shaped {
                    assert forall|k: int| 0 <= k < mv.len() implies (#[trigger] mv[k]).len() == string_views(a@).len() by {
                        assert(m@[k]@.len() == a@.len());
                    }
                }
            }
            if shaped {
                let ghost av = string_views(a@);
                let ghost chv = string_views(ch@);
                let ghost mv = matrix_view(m@);
                let mut items: Vec<MatchAnswersItem> = Vec::new();
                let mut i: usize = 0;
                while i < ch.len()
                    invariant
                        i <= ch.len() == m.len(),
                        av == string_views(a@),
                        chv == string_views(ch@),
                        mv == matrix_view(m@),
                        forall|k: int| 0 <= k < m.len() ==> (#[trigger] m@[k])@.len() == a@.len(),
                        items@.len() == i,
                        forall|k: int| 0 <= k < i ==> (#[trigger] items@[k])@ == (ItemView {
                            statement: chv[k],
                            answer_marks: Seq::new(av.len(), |j: int| MarksView { marks: mv[k][j], answer: av[j] }),
                        }),
                    decreases ch.len() - i,
                {
                    let mut marks: Vec<MatchAnswersItemMarks> = Vec::new();
                    let mut j: usize = 0;
                    while j < a.len()
                        invariant
                            i < ch.len() == m.len(),
                            j <= a.len(),
                            m@[i as int]@.len() == a@.len(),
                            av == string_views(a@),
                            mv == matrix_view(m@),
                            marks@.len() == j,
                            forall|k: int| 0 <= k < j ==> (#[trigger] marks@[k]).marks == mv[i as int][k] && marks@[k].answer@ == av[k],
                        decreases a.len() - j,
                    {
                        marks.push(MatchAnswersItemMarks { marks: m[i][j], answer: a[j].clone() });
                        j += 1;
                    }
                    let item = MatchAnswersItem { statement: ch[i].clone(), answer_marks: marks };
                    assert(item@.answer_marks =~= Seq::new(av.len(), |j: int| MarksView { marks: mv[i as int][j], answer: av[j] }));
                    items.push(item);
                    i += 1;
                }
                let r = MultipleChoiceMatchAnswerData::ItemBased(
                    MultipleChoiceMatchAnswers { answers: crate::check::copy_strings(a), items },
                );
                assert(r@->ItemBased_0.items =~= backward(self@)->Some_0->ItemBased_0.items);
                return Ok(r);
            }
        }
        match &self.marking_matrix {
            None => Err(MissingMarkingMatrix),
            Some(m) => Ok(MultipleChoiceMatchAnswerData::NumbasLike(MultipleChoiceMatchAnswerDataNumbasLike {
                answers: copy_texts(&self.answers),
                choices: copy_texts(&self.choices),
                marks: copy_matrix(m),
            })),
        }
    }
}

/// Reading the target schema's data back and writing it again gives the
/// same data, whenever it has a marking matrix.
pub proof fn lemma_backward_forward(c: ChoicesView)
    requires
        c.matrix is Some,
    ensures
        backward(c) is Some,
        forward(backward(c)->Some_0) == c,
{
    if regular(c) {
        let a = c.answers->Value_0;
        let ch = c.choices->Value_0;
        let m = c.matrix->Some_0->Value_0;
        let d = backward(c)->Some_0;
        let f = forward(d);
        assert(f.choices->Value_0 =~= ch);
        assert forall|i: int| 0 <= i < m.len() implies #[trigger] f.matrix->Some_0->Value_0[i] == m[i] by {
            let item = d->ItemBased_0.items[i];
            assert forall|j: int| 0 <= j < a.len() implies #[trigger] item_row(item, a)[j] == m[i][j] by {
                assert forall|k: int| 0 <= k < j implies (#[trigger] item.answer_marks[k]).answer != a[j] by {
                    assert(a[k] != a[j]);
                }
                lemma_marks_for_first(item.answer_marks, a[j], j);
            }
            assert(item_row(item, a) =~= m[i]);
        }
        assert(f.matrix->Some_0->Value_0 =~= m);
    }
}

/// Item-based data in its canonical shape survives writing it in the target
/// schema's form and reading it back.
pub proof fn lemma_forward_backward(x: ItemsView)
    requires
        canonical(x),
    ensures
        backward(forward(AnswerDataView::ItemBased(x))) == Some(AnswerDataView::ItemBased(x)),
{
    let c = forward(AnswerDataView::ItemBased(x));
    let m = c.matrix->Some_0->Value_0;
    assert forall|i: int, j: int| 0 <= i < x.items.len() && 0 <= j < x.answers.len() implies #[trigger] m[i][j] == x.items[i].answer_marks[j].marks by {
        assert forall|k: int| 0 <= k < j implies (#[trigger] x.items[i].answer_marks[k]).answer != x.answers[j] by {
            assert(x.items[i].answer_marks[k].answer == x.answers[k]);
        }
        lemma_marks_for_first(x.items[i].answer_marks, x.answers[j], j);
    }
    assert(regular(c));
    let d = backward(c)->Some_0->ItemBased_0;
    assert forall|i: int| 0 <= i < x.items.len() implies #[trigger] d.items[i] == x.items[i] by {
        assert(d.items[i].answer_marks =~= x.items[i].answer_marks);
    }
    assert(d.items =~= x.items);
}

} // verus!
