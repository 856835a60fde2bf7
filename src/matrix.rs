use vstd::prelude::*;
use crate::value::{Noneable, Value, VariableValued};

verus! {

pub enum VarModel {
    Variable(Seq<char>),
    Value(usize),
}

impl View for VariableValued<usize> {
    type V = VarModel;

    open spec fn view(&self) -> VarModel {
        match self {
            VariableValued::Variable(s) => VarModel::Variable(s@),
            VariableValued::Value(n) => VarModel::Value(*n),
        }
    }
}

impl VariableValued<usize> {
    pub fn copy(&self) -> (r: Self)
        ensures
            r@ == self@,
    {
        match self {
            VariableValued::Variable(s) => VariableValued::Variable(s.clone()),
            VariableValued::Value(n) => VariableValued::Value(*n),
        }
    }

    pub fn equals(&self, other: &Self) -> (r: bool)
        ensures
            r == (self@ == other@),
    {
        match (self, other) {
            (VariableValued::Variable(a), VariableValued::Variable(b)) => *a == *b,
            (VariableValued::Value(a), VariableValued::Value(b)) => *a == *b,
            _ => false,
        }
    }
}

/// The size of a matrix answer along one axis: fixed, or a range the
/// student may resize within.
#[derive(Clone, Debug)]
pub enum QuestionPartMatrixDimension {
    Fixed(VariableValued<usize>),
    Resizable(Box<QuestionPartMatrixRangedDimension>),
}

#[derive(Clone, Debug)]
pub struct QuestionPartMatrixRangedDimension {
    /// The size shown at first.
    pub default: Value<VariableValued<usize>>,
    /// The smallest size.
    pub min: Value<VariableValued<usize>>,
    /// The largest size; switched off, there is no limit.
    pub max: Value<Noneable<VariableValued<usize>>>,
}

#[derive(Clone, Debug)]
pub struct QuestionPartMatrixDimensions {
    pub rows: Value<QuestionPartMatrixDimension>,
    pub columns: Value<QuestionPartMatrixDimension>,
}

/// Every value of a resizable dimension is provided.
pub open spec fn dimension_provided(d: QuestionPartMatrixDimension) -> bool {
    match d {
        QuestionPartMatrixDimension::Fixed(_) => true,
        QuestionPartMatrixDimension::Resizable(r) => r.default is Normal && r.min is Normal && r.max is Normal,
    }
}

pub open spec fn dimension_default(d: QuestionPartMatrixDimension) -> VarModel {
    match d {
        QuestionPartMatrixDimension::Fixed(f) => f@,
        QuestionPartMatrixDimension::Resizable(r) => r.default->Normal_0@,
    }
}

pub open spec fn dimension_min(d: QuestionPartMatrixDimension) -> VarModel {
    match d {
        QuestionPartMatrixDimension::Fixed(f) => f@,
        QuestionPartMatrixDimension::Resizable(r) => r.min->Normal_0@,
    }
}

/// An unlimited maximum reads as the literal size 0.
pub open spec fn dimension_max(d: QuestionPartMatrixDimension) -> VarModel {
    match d {
        QuestionPartMatrixDimension::Fixed(f) => f@,
        QuestionPartMatrixDimension::Resizable(r) => match r.max->Normal_0 {
            Noneable::Nothing => VarModel::Value(0),
            Noneable::NotNone(f) => f@,
        },
    }
}

pub open spec fn dimension_resizable(d: QuestionPartMatrixDimension) -> bool {
    dimension_default(d) != dimension_min(d) || dimension_default(d) != dimension_max(d)
}

impl QuestionPartMatrixDimension {
    pub fn default(&self) -> (r: VariableValued<usize>)
        requires
            dimension_provided(*self),
        ensures
            r@ == dimension_default(*self),
    {
        match self {
            QuestionPartMatrixDimension::Fixed(f) => f.copy(),
            QuestionPartMatrixDimension::Resizable(r) => match &r.default {
                Value::Normal(v) => v.copy(),
                _ => VariableValued::Value(0),
            },
        }
    }

    pub fn min(&self) -> (r: VariableValued<usize>)
        requires
            dimension_provided(*self),
        ensures
            r@ == dimension_min(*self),
    {
        match self {
            QuestionPartMatrixDimension::Fixed(f) => f.copy(),
            QuestionPartMatrixDimension::Resizable(r) => match &r.min {
                Value::Normal(v) => v.copy(),
                _ => VariableValued::Value(0),
            },
        }
    }

    pub fn max(&self) -> (r: VariableValued<usize>)
        requires
            dimension_provided(*self),
        ensures
            r@ == dimension_max(*self),
    {
        match self {
            QuestionPartMatrixDimension::Fixed(f) => f.copy(),
            QuestionPartMatrixDimension::Resizable(r) => match &r.max {
                Value::Normal(Noneable::Nothing) => VariableValued::Value(0),
                Value::Normal(Noneable::NotNone(f)) => f.copy(),
                _ => VariableValued::Value(0),
            },
        }
    }

    /// Whether the student may change the size: the default differs from
    /// the minimum or from the maximum.
    pub fn is_resizable(&self) -> (r: bool)
        requires
            dimension_provided(*self),
        ensures
            r == dimension_resizable(*self),
    {
        let d = self.default();
        !d.equals(&self.min()) || !d.equals(&self.max())
    }

    /// The dimension for a range: fixed when the three sizes agree, and
    /// otherwise resizable, a maximum of literal 0 meaning no limit.
    pub fn from_range(
        min: VariableValued<usize>,
        default: VariableValued<usize>,
        max: VariableValued<usize>,
    ) -> (r: Self)
        ensures
            dimension_provided(r),
            r is Fixed <==> (min@ == default@ && default@ == max@),
            dimension_min(r) == min@,
            dimension_default(r) == default@,
            dimension_max(r) == max@,
            r matches QuestionPartMatrixDimension::Resizable(b) ==> (b.max->Normal_0 is Nothing <==> max@ == VarModel::Value(0)),
    {
        if min.equals(&default) && default.equals(&max) {
            QuestionPartMatrixDimension::Fixed(min)
        } else {
            let unlimited = max.equals(&VariableValued::Value(0));
            QuestionPartMatrixDimension::Resizable(
                Box::new(
                    QuestionPartMatrixRangedDimension {
                        default: Value::Normal(default),
                        min: Value::Normal(min),
                        max: Value::Normal(if unlimited { Noneable::Nothing } else { Noneable::NotNone(max) }),
                    },
                ),
            )
        }
    }
}

impl QuestionPartMatrixDimensions {
    /// Whether the rows or the columns may be resized.
    pub fn is_resizable(&self) -> (r: bool)
        requires
            self.rows matches Value::Normal(d) && dimension_provided(d),
            self.columns matches Value::Normal(d) && dimension_provided(d),
        ensures
            r == (dimension_resizable(self.rows->Normal_0) || dimension_resizable(self.columns->Normal_0)),
    {
        match (&self.rows, &self.columns) {
            (Value::Normal(rows), Value::Normal(columns)) => rows.is_resizable() || columns.is_resizable(),
            _ => false,
        }
    }
}

} // verus!
