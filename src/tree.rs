use vstd::prelude::*;
use crate::files::{FileKey, FileToLoad};
use crate::localize::{TranslatableString, TranslatableView};
use crate::value::{Value, ValueModel};

verus! {

/// Whether the names of an object are fields fixed by the schema, or keys
/// chosen by the author.
#[derive(Clone, Copy, Debug, PartialEq, Eq, Structural)]
pub enum ObjectKind {
    Record,
    Dictionary,
}

/// A fully resolved document: every field holds a value.
#[derive(Debug)]
pub enum Tree {
    Bool(bool),
    Int(i64),
    Text(String),
    Translated(TranslatableString),
    List(Vec<Tree>),
    Object(ObjectKind, Vec<(String, Tree)>),
}

/// A partial document: every list item and object entry is a `Value`, and a
/// leaf may still be a reference to an external file.
#[derive(Debug)]
pub enum TreeInput {
    Bool(bool),
    Int(i64),
    Text(String),
    Translated(TranslatableString),
    File(FileToLoad),
    List(Vec<Value<TreeInput>>),
    Object(ObjectKind, Vec<(String, Value<TreeInput>)>),
}

/// The mathematical counterpart of `Tree`.
pub enum Doc {
    Bool(bool),
    Int(i64),
    Text(Seq<char>),
    Translated(TranslatableView),
    List(Seq<Doc>),
    Object(ObjectKind, Seq<(Seq<char>, Doc)>),
}

/// The mathematical counterpart of `TreeInput`.
pub enum DocInput {
    Bool(bool),
    Int(i64),
    Text(Seq<char>),
    Translated(TranslatableView),
    File(FileKey),
    List(Seq<ValueModel<DocInput>>),
    Object(ObjectKind, Seq<(Seq<char>, ValueModel<DocInput>)>),
}

pub type Slot = ValueModel<DocInput>;

pub open spec fn tree_view(t: Tree) -> Doc
    decreases t,
{
    match t {
        Tree::Bool(b) => Doc::Bool(b),
        Tree::Int(n) => Doc::Int(n),
        Tree::Text(s) => Doc::Text(s@),
        Tree::Translated(t) => Doc::Translated(t@),
        Tree::List(v) => Doc::List(
            Seq::new(v@.len(), |i: int| if 0 <= i < v@.len() { tree_view(v@[i]) } else { Doc::Bool(false) }),
        ),
        Tree::Object(kind, v) => Doc::Object(
            kind,
            Seq::new(
                v@.len(),
                |i: int|
                    if 0 <= i < v@.len() {
                        (v@[i].0@, tree_view(v@[i].1))
                    } else {
                        (Seq::empty(), Doc::Bool(false))
                    },
            ),
        ),
    }
}

impl View for Tree {
    type V = Doc;

    open spec fn view(&self) -> Doc {
        tree_view(*self)
    }
}

pub open spec fn input_view(t: TreeInput) -> DocInput
    decreases t,
{
    match t {
        TreeInput::Bool(b) => DocInput::Bool(b),
        TreeInput::Int(n) => DocInput::Int(n),
        TreeInput::Text(s) => DocInput::Text(s@),
        TreeInput::Translated(t) => DocInput::Translated(t@),
        TreeInput::File(f) => DocInput::File(f@),
        TreeInput::List(v) => DocInput::List(
            Seq::new(v@.len(), |i: int| if 0 <= i < v@.len() { value_view(v@[i]) } else { Slot::Absent }),
        ),
        TreeInput::Object(kind, v) => DocInput::Object(
            kind,
            Seq::new(
                v@.len(),
                |i: int|
                    if 0 <= i < v@.len() {
                        (v@[i].0@, value_view(v@[i].1))
                    } else {
                        (Seq::empty(), Slot::Absent)
                    },
            ),
        ),
    }
}

pub open spec fn value_view(v: Value<TreeInput>) -> Slot
    decreases v,
{
    match v {
        Value::Normal(t) => Slot::Normal(input_view(t)),
        Value::Template(k) => Slot::Template(k@),
        Value::Invalid(raw) => Slot::Invalid(raw@),
        Value::Absent => Slot::Absent,
    }
}

impl View for TreeInput {
    type V = DocInput;

    open spec fn view(&self) -> DocInput {
        input_view(*self)
    }
}

impl View for Value<TreeInput> {
    type V = Slot;

    open spec fn view(&self) -> Slot {
        value_view(*self)
    }
}

pub proof fn lemma_tree_child(t: Tree, i: int)
    ensures
        t is List && 0 <= i < t->List_0@.len() ==> decreases_to!(t => t->List_0@[i]),
        t is Object && 0 <= i < t->Object_1@.len() ==> decreases_to!(t => t->Object_1@[i].1),
{
    if t is List && 0 <= i < t->List_0@.len() {
        assert(decreases_to!(t => t->List_0));
        assert(decreases_to!(t->List_0 => t->List_0@));
    }
    if t is Object && 0 <= i < t->Object_1@.len() {
        assert(decreases_to!(t => t->Object_1));
        assert(decreases_to!(t->Object_1 => t->Object_1@));
        assert(decreases_to!(t->Object_1@ => t->Object_1@[i]));
    }
}

pub proof fn lemma_input_child(t: TreeInput, i: int)
    ensures
        t is List && 0 <= i < t->List_0@.len() ==> decreases_to!(t => t->List_0@[i]),
        t is Object && 0 <= i < t->Object_1@.len() ==> decreases_to!(t => t->Object_1@[i].1),
{
    if t is List && 0 <= i < t->List_0@.len() {
        assert(decreases_to!(t => t->List_0));
        assert(decreases_to!(t->List_0 => t->List_0@));
    }
    if t is Object && 0 <= i < t->Object_1@.len() {
        assert(decreases_to!(t => t->Object_1));
        assert(decreases_to!(t->Object_1 => t->Object_1@));
        assert(decreases_to!(t->Object_1@ => t->Object_1@[i]));
    }
}

impl Tree {
    pub fn copy(&self) -> (r: Tree)
        ensures
            r@ == self@,
        decreases self,
    {
        match self {
            Tree::Bool(b) => Tree::Bool(*b),
            Tree::Int(n) => Tree::Int(*n),
            Tree::Text(s) => Tree::Text(s.clone()),
            Tree::Translated(t) => Tree::Translated(t.copy()),
            Tree::List(v) => {
                let mut out: Vec<Tree> = Vec::new();
                let mut i: usize = 0;
                while i < v.len()
                    invariant
                        *self == Tree::List(*v),
                        i <= v.len(),
                        out@.len() == i,
                        forall|j: int| 0 <= j < i ==> (#[trigger] out@[j])@ == v@[j]@,
                    decreases v.len() - i,
                {
                    proof { lemma_tree_child(*self, i as int); }
                    let c = v[i].copy();
                    out.push(c);
                    i += 1;
                }
                let r = Tree::List(out);
                assert(r@->List_0 =~= self@->List_0);
                r
            },
            Tree::Object(kind, v) => {
                let mut out: Vec<(String, Tree)> = Vec::new();
                let mut i: usize = 0;
                while i < v.len()
                    invariant
                        *self == Tree::Object(*kind, *v),
                        i <= v.len(),
                        out@.len() == i,
                        forall|j: int| 0 <= j < i ==> (#[trigger] out@[j]).0@ == v@[j].0@ && out@[j].1@ == v@[j].1@,
                    decreases v.len() - i,
                {
                    proof { lemma_tree_child(*self, i as int); }
                    let c = v[i].1.copy();
                    out.push((v[i].0.clone(), c));
                    i += 1;
                }
                let r = Tree::Object(*kind, out);
                assert(r@->Object_1 =~= self@->Object_1);
                r
            },
        }
    }
}

impl TreeInput {
    pub fn copy(&self) -> (r: TreeInput)
        ensures
            r@ == self@,
        decreases self,
    {
        match self {
            TreeInput::Bool(b) => TreeInput::Bool(*b),
            TreeInput::Int(n) => TreeInput::Int(*n),
            TreeInput::Text(s) => TreeInput::Text(s.clone()),
            TreeInput::Translated(t) => TreeInput::Translated(t.copy()),
            TreeInput::File(f) => TreeInput::File(f.copy()),
            TreeInput::List(v) => {
                let mut out: Vec<Value<TreeInput>> = Vec::new();
                let mut i: usize = 0;
                while i < v.len()
                    invariant
                        *self == TreeInput::List(*v),
                        i <= v.len(),
                        out@.len() == i,
                        forall|j: int| 0 <= j < i ==> (#[trigger] out@[j])@ == v@[j]@,
                    decreases v.len() - i,
                {
                    proof { lemma_input_child(*self, i as int); }
                    let c = copy_value(&v[i]);
                    out.push(c);
                    i += 1;
                }
                let r = TreeInput::List(out);
                assert(r@->List_0 =~= self@->List_0);
                r
            },
            TreeInput::Object(kind, v) => {
                let mut out: Vec<(String, Value<TreeInput>)> = Vec::new();
                let mut i: usize = 0;
                while i < v.len()
                    invariant
                        *self == TreeInput::Object(*kind, *v),
                        i <= v.len(),
                        out@.len() == i,
                        forall|j: int| 0 <= j < i ==> (#[trigger] out@[j]).0@ == v@[j].0@ && out@[j].1@ == v@[j].1@,
                    decreases v.len() - i,
                {
                    proof { lemma_input_child(*self, i as int); }
                    let c = copy_value(&v[i].1);
                    out.push((v[i].0.clone(), c));
                    i += 1;
                }
                let r = TreeInput::Object(*kind, out);
                assert(r@->Object_1 =~= self@->Object_1);
                r
            },
        }
    }
}

pub fn copy_value(v: &Value<TreeInput>) -> (r: Value<TreeInput>)
    ensures
        r@ == v@,
    decreases v,
{
    match v {
        Value::Normal(t) => Value::Normal(t.copy()),
        Value::Template(k) => Value::Template(k.clone()),
        Value::Invalid(raw) => Value::Invalid(raw.clone()),
        Value::Absent => Value::Absent,
    }
}

} // verus!
