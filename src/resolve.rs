use vstd::prelude::*;
use crate::check::{
    InputCheckResult, CheckView, check_empty, check_extend, check_is_empty, check_union,
    invalid_here, missing_here,
};
use crate::tree::{Doc, DocInput, ObjectKind, Slot, Tree, TreeInput, lemma_input_child, lemma_tree_child};
use crate::value::Value;

verus! {

pub open spec fn digit_char(d: nat) -> char {
    if d == 0 { '0' } else if d == 1 { '1' } else if d == 2 { '2' } else if d == 3 { '3' }
    else if d == 4 { '4' } else if d == 5 { '5' } else if d == 6 { '6' } else if d == 7 { '7' }
    else if d == 8 { '8' } else { '9' }
}

/// The decimal digits of `n`, without leading zeros.
pub open spec fn decimal(n: nat) -> Seq<char>
    decreases n,
{
    if n < 10 {
        seq![digit_char(n)]
    } else {
        decimal(n / 10).push(digit_char(n % 10))
    }
}

/// Relies on `usize`'s `to_string`: the decimal digits of the number.
#[verifier::external_body]
pub(crate) fn index_text(i: usize) -> (r: String)
    ensures
        r@ == decimal(i as nat),
{
    i.to_string()
}

/// The problems of a partial document, in document order, each with its path.
pub open spec fn missing_of(d: DocInput) -> CheckView
    decreases d,
{
    match d {
        DocInput::File(f) => missing_here(Some(f.path)),
        DocInput::List(s) => missing_of_items(s),
        DocInput::Object(kind, fs) => missing_of_fields(fs, kind is Dictionary),
        _ => check_empty(),
    }
}

/// List items are told apart by their index.
pub open spec fn missing_of_items(s: Seq<Slot>) -> CheckView
    decreases s,
{
    if s.len() == 0 {
        check_empty()
    } else {
        check_union(
            missing_of_items(s.subrange(0, s.len() - 1)),
            check_extend(missing_of_value(s[s.len() - 1]), decimal((s.len() - 1) as nat)),
        )
    }
}

/// The segment for an entry of an object: the field's name, or, where the
/// names are keys of a map, the entry's index.
pub open spec fn entry_segment(fs: Seq<(Seq<char>, Slot)>, keyed: bool, i: int) -> Seq<char> {
    if keyed {
        decimal(i as nat)
    } else {
        fs[i].0
    }
}

pub open spec fn missing_of_fields(fs: Seq<(Seq<char>, Slot)>, keyed: bool) -> CheckView
    decreases fs,
{
    if fs.len() == 0 {
        check_empty()
    } else {
        check_union(
            missing_of_fields(fs.subrange(0, fs.len() - 1), keyed),
            check_extend(missing_of_value(fs[fs.len() - 1].1), entry_segment(fs, keyed, fs.len() - 1)),
        )
    }
}

pub open spec fn missing_of_value(v: Slot) -> CheckView
    decreases v,
{
    match v {
        Slot::Normal(d) => missing_of(d),
        Slot::Template(k) => missing_here(Some(k)),
        Slot::Invalid(raw) => invalid_here(raw, None),
        Slot::Absent => missing_here(None),
    }
}

pub open spec fn complete(d: DocInput) -> bool {
    check_is_empty(missing_of(d))
}

/// The resolved document of a partial one; meaningful where nothing is missing.
pub open spec fn normal_of(d: DocInput) -> Doc
    decreases d,
{
    match d {
        DocInput::Bool(b) => Doc::Bool(b),
        DocInput::Int(n) => Doc::Int(n),
        DocInput::Text(t) => Doc::Text(t),
        DocInput::Translated(t) => Doc::Translated(t),
        DocInput::File(_) => Doc::Text(Seq::empty()),
        DocInput::List(s) => Doc::List(
            Seq::new(s.len(), |i: int| if 0 <= i < s.len() { normal_of_value(s[i]) } else { Doc::Bool(false) }),
        ),
        DocInput::Object(kind, fs) => Doc::Object(
            kind,
            Seq::new(
                fs.len(),
                |i: int|
                    if 0 <= i < fs.len() {
                        (fs[i].0, normal_of_value(fs[i].1))
                    } else {
                        (Seq::empty(), Doc::Bool(false))
                    },
            ),
        ),
    }
}

pub open spec fn normal_of_value(v: Slot) -> Doc
    decreases v,
{
    match v {
        Slot::Normal(d) => normal_of(d),
        _ => Doc::Bool(false),
    }
}

/// The partial document in which every field of `d` is provided.
pub open spec fn lift(d: Doc) -> DocInput
    decreases d,
{
    match d {
        Doc::Bool(b) => DocInput::Bool(b),
        Doc::Int(n) => DocInput::Int(n),
        Doc::Text(t) => DocInput::Text(t),
        Doc::Translated(t) => DocInput::Translated(t),
        Doc::List(s) => DocInput::List(
            Seq::new(s.len(), |i: int| if 0 <= i < s.len() { Slot::Normal(lift(s[i])) } else { Slot::Absent }),
        ),
        Doc::Object(kind, fs) => DocInput::Object(
            kind,
            Seq::new(
                fs.len(),
                |i: int|
                    if 0 <= i < fs.len() {
                        (fs[i].0, Slot::Normal(lift(fs[i].1)))
                    } else {
                        (Seq::empty(), Slot::Absent)
                    },
            ),
        ),
    }
}

pub proof fn lemma_items_complete(s: Seq<Slot>, i: int)
    requires
        check_is_empty(missing_of_items(s)),
        0 <= i < s.len(),
    ensures
        check_is_empty(missing_of_value(s[i])),
    decreases s.len(),
{
    let last = s.len() - 1;
    let prefix = s.subrange(0, last);
    let c = missing_of_value(s[last]);
    assert(check_extend(c, decimal(last as nat)).missing.len() == c.missing.len());
    assert(check_extend(c, decimal(last as nat)).invalid.len() == c.invalid.len());
    if i < last {
        lemma_items_complete(prefix, i);
        assert(prefix[i] == s[i]);
    }
}

pub proof fn lemma_fields_complete(fs: Seq<(Seq<char>, Slot)>, keyed: bool, i: int)
    requires
        check_is_empty(missing_of_fields(fs, keyed)),
        0 <= i < fs.len(),
    ensures
        check_is_empty(missing_of_value(fs[i].1)),
    decreases fs.len(),
{
    let last = fs.len() - 1;
    let prefix = fs.subrange(0, last);
    let c = missing_of_value(fs[last].1);
    assert(check_extend(c, entry_segment(fs, keyed, last)).missing.len() == c.missing.len());
    assert(check_extend(c, entry_segment(fs, keyed, last)).invalid.len() == c.invalid.len());
    if i < last {
        lemma_fields_complete(prefix, keyed, i);
        assert(prefix[i] == fs[i]);
    }
}

pub proof fn lemma_items_all_complete(s: Seq<Slot>)
    requires
        forall|i: int| 0 <= i < s.len() ==> check_is_empty(#[trigger] missing_of_value(s[i])),
    ensures
        check_is_empty(missing_of_items(s)),
    decreases s.len(),
{
    if s.len() > 0 {
        let last = s.len() - 1;
        let prefix = s.subrange(0, last);
        assert forall|i: int| 0 <= i < prefix.len() implies check_is_empty(#[trigger] missing_of_value(prefix[i])) by {
            assert(prefix[i] == s[i]);
        }
        lemma_items_all_complete(prefix);
        let c = missing_of_value(s[last]);
        assert(check_extend(c, decimal(last as nat)).missing.len() == c.missing.len());
        assert(check_extend(c, decimal(last as nat)).invalid.len() == c.invalid.len());
    }
}

pub proof fn lemma_fields_all_complete(fs: Seq<(Seq<char>, Slot)>, keyed: bool)
    requires
        forall|i: int| 0 <= i < fs.len() ==> check_is_empty(#[trigger] missing_of_value(fs[i].1)),
    ensures
        check_is_empty(missing_of_fields(fs, keyed)),
    decreases fs.len(),
{
    if fs.len() > 0 {
        let last = fs.len() - 1;
        let prefix = fs.subrange(0, last);
        assert forall|i: int| 0 <= i < prefix.len() implies check_is_empty(#[trigger] missing_of_value(prefix[i].1)) by {
            assert(prefix[i] == fs[i]);
        }
        lemma_fields_all_complete(prefix, keyed);
        let c = missing_of_value(fs[last].1);
        assert(check_extend(c, entry_segment(fs, keyed, last)).missing.len() == c.missing.len());
        assert(check_extend(c, entry_segment(fs, keyed, last)).invalid.len() == c.invalid.len());
    }
}

/// What resolution gives for a partial document: the resolved document, or
/// every problem found in it.
pub open spec fn resolution(d: DocInput) -> Result<Doc, CheckView> {
    if complete(d) {
        Ok(normal_of(d))
    } else {
        Err(missing_of(d))
    }
}

/// A partial document resolves exactly when the check of its missing values
/// finds nothing.
pub proof fn lemma_resolves_iff_nothing_missing(d: DocInput)
    ensures
        check_is_empty(missing_of(d)) <==> resolution(d) is Ok,
        resolution(d) matches Err(c) ==> c == missing_of(d),
{
}

/// Lifting a resolved document into a partial one leaves nothing missing.
pub proof fn lemma_lift_complete(n: Doc)
    ensures
        complete(lift(n)),
    decreases n,
{
    match n {
        Doc::List(s) => {
            let ls = lift(n)->List_0;
            assert forall|i: int| 0 <= i < ls.len() implies check_is_empty(#[trigger] missing_of_value(ls[i])) by {
                lemma_lift_complete(s[i]);
            }
            lemma_items_all_complete(ls);
        },
        Doc::Object(kind, fs) => {
            let lfs = lift(n)->Object_1;
            assert forall|i: int| 0 <= i < lfs.len() implies check_is_empty(#[trigger] missing_of_value(lfs[i].1)) by {
                lemma_lift_complete(fs[i].1);
            }
            lemma_fields_all_complete(lfs, kind is Dictionary);
        },
        _ => {},
    }
}

/// Resolving the lift of a resolved document gives that document back.
pub proof fn lemma_round_trip(n: Doc)
    ensures
        normal_of(lift(n)) == n,
    decreases n,
{
    match n {
        Doc::List(s) => {
            let ls = lift(n)->List_0;
            assert forall|i: int| 0 <= i < s.len() implies #[trigger] normal_of(lift(n))->List_0[i] == s[i] by {
                lemma_round_trip(s[i]);
                assert(ls[i] == Slot::Normal(lift(s[i])));
                assert(normal_of_value(ls[i]) == normal_of(lift(s[i])));
            }
            assert(normal_of(lift(n))->List_0 =~= s);
        },
        Doc::Object(_, fs) => {
            let lfs = lift(n)->Object_1;
            assert forall|i: int| 0 <= i < fs.len() implies #[trigger] normal_of(lift(n))->Object_1[i] == fs[i] by {
                lemma_round_trip(fs[i].1);
                assert(lfs[i] == (fs[i].0, Slot::Normal(lift(fs[i].1))));
                assert(normal_of_value(lfs[i].1) == normal_of(lift(fs[i].1)));
            }
            assert(normal_of(lift(n))->Object_1 =~= fs);
        },
        _ => {},
    }
}

impl TreeInput {
    /// Every missing, templated or invalid value and every file reference
    /// that was not loaded, with its path.
    pub fn find_missing(&self) -> (r: InputCheckResult)
        ensures
            r@ == missing_of(self@),
        decreases self,
    {
        match self {
            TreeInput::File(f) => InputCheckResult::from_missing(Some(f.file_path.clone())),
            TreeInput::List(v) => {
                let ghost s = self@->List_0;
                let mut result = InputCheckResult::empty();
                let mut i: usize = 0;
                while i < v.len()
                    invariant
                        *self == TreeInput::List(*v),
                        s == self@->List_0,
                        i <= v.len(),
                        result@ == missing_of_items(s.subrange(0, i as int)),
                    decreases v.len() - i,
                {
                    proof { lemma_input_child(*self, i as int); }
                    let mut c = find_missing_value(&v[i]);
                    c.extend_path(index_text(i));
                    result.union(&c);
                    assert(s.subrange(0, i + 1).subrange(0, i as int) =~= s.subrange(0, i as int));
                    i += 1;
                }
                assert(s.subrange(0, v.len() as int) =~= s);
                result
            },
            TreeInput::Object(kind, v) => {
                let ghost fs = self@->Object_1;
                let mut result = InputCheckResult::empty();
                let mut i: usize = 0;
                while i < v.len()
                    invariant
                        *self == TreeInput::Object(*kind, *v),
                        fs == self@->Object_1,
                        i <= v.len(),
                        result@ == missing_of_fields(fs.subrange(0, i as int), *kind is Dictionary),
                    decreases v.len() - i,
                {
                    proof { lemma_input_child(*self, i as int); }
                    let mut c = find_missing_value(&v[i].1);
                    let segment = match kind {
                        ObjectKind::Dictionary => index_text(i),
                        ObjectKind::Record => v[i].0.clone(),
                    };
                    c.extend_path(segment);
                    result.union(&c);
                    assert(fs.subrange(0, i + 1).subrange(0, i as int) =~= fs.subrange(0, i as int));
                    i += 1;
                }
                assert(fs.subrange(0, v.len() as int) =~= fs);
                result
            },
            _ => InputCheckResult::empty(),
        }
    }

    /// The resolved document; only for a document in which nothing is missing.
    pub fn to_normal(&self) -> (r: Tree)
        requires
            complete(self@),
        ensures
            r@ == normal_of(self@),
        decreases self,
    {
        match self {
            TreeInput::Bool(b) => Tree::Bool(*b),
            TreeInput::Int(n) => Tree::Int(*n),
            TreeInput::Text(t) => Tree::Text(t.clone()),
            TreeInput::Translated(t) => Tree::Translated(t.copy()),
            TreeInput::File(_) => Tree::Text(String::new()),
            TreeInput::List(v) => {
                let ghost s = self@->List_0;
                let mut out: Vec<Tree> = Vec::new();
                let mut i: usize = 0;
                while i < v.len()
                    invariant
                        *self == TreeInput::List(*v),
                        s == self@->List_0,
                        check_is_empty(missing_of_items(s)),
                        i <= v.len(),
                        out@.len() == i,
                        forall|j: int| 0 <= j < i ==> (#[trigger] out@[j])@ == normal_of_value(s[j]),
                    decreases v.len() - i,
                {
                    proof {
                        lemma_input_child(*self, i as int);
                        lemma_items_complete(s, i as int);
                    }
                    out.push(normal_value(&v[i]));
                    i += 1;
                }
                let r = Tree::List(out);
                assert(r@->List_0 =~= normal_of(self@)->List_0);
                r
            },
            TreeInput::Object(kind, v) => {
                let ghost fs = self@->Object_1;
                let mut out: Vec<(String, Tree)> = Vec::new();
                let mut i: usize = 0;
                while i < v.len()
                    invariant
                        *self == TreeInput::Object(*kind, *v),
                        fs == self@->Object_1,
                        check_is_empty(missing_of_fields(fs, *kind is Dictionary)),
                        i <= v.len(),
                        out@.len() == i,
                        forall|j: int| 0 <= j < i ==> (#[trigger] out@[j]).0@ == fs[j].0 && out@[j].1@ == normal_of_value(fs[j].1),
                    decreases v.len() - i,
                {
                    proof {
                        lemma_input_child(*self, i as int);
                        lemma_fields_complete(fs, *kind is Dictionary, i as int);
                    }
                    let t = normal_value(&v[i].1);
                    out.push((v[i].0.clone(), t));
                    i += 1;
                }
                let r = Tree::Object(*kind, out);
                assert(r@->Object_1 =~= normal_of(self@)->Object_1);
                r
            },
        }
    }

    /// Resolves the document when nothing is missing, and otherwise reports
    /// every problem found.
    pub fn to_normal_safe(&self) -> (r: Result<Tree, InputCheckResult>)
        ensures
            r is Ok <==> resolution(self@) is Ok,
            r matches Ok(t) ==> resolution(self@) == Ok::<Doc, CheckView>(t@),
            r matches Err(c) ==> resolution(self@) == Err::<Doc, CheckView>(c@),
    {
        let check = self.find_missing();
        if check.is_empty() {
            Ok(self.to_normal())
        } else {
            Err(check)
        }
    }

    /// The partial document in which every field of `normal` is provided.
    pub fn from_normal(normal: Tree) -> (r: TreeInput)
        ensures
            r@ == lift(normal@),
    {
        lift_tree(&normal)
    }
}

pub fn find_missing_value(v: &Value<TreeInput>) -> (r: InputCheckResult)
    ensures
        r@ == missing_of_value(v@),
    decreases v,
{
    match v {
        Value::Normal(t) => t.find_missing(),
        Value::Template(k) => InputCheckResult::from_missing(Some(k.clone())),
        Value::Invalid(raw) => InputCheckResult::from_invalid(raw.clone(), None),
        Value::Absent => InputCheckResult::from_missing(None),
    }
}

pub fn normal_value(v: &Value<TreeInput>) -> (r: Tree)
    requires
        check_is_empty(missing_of_value(v@)),
    ensures
        r@ == normal_of_value(v@),
    decreases v,
{
    match v {
        Value::Normal(t) => t.to_normal(),
        _ => Tree::Bool(false),
    }
}

pub fn lift_tree(t: &Tree) -> (r: TreeInput)
    ensures
        r@ == lift(t@),
    decreases t,
{
    match t {
        Tree::Bool(b) => TreeInput::Bool(*b),
        Tree::Int(n) => TreeInput::Int(*n),
        Tree::Text(s) => TreeInput::Text(s.clone()),
        Tree::Translated(t) => TreeInput::Translated(t.copy()),
        Tree::List(v) => {
            let mut out: Vec<Value<TreeInput>> = Vec::new();
            let mut i: usize = 0;
            while i < v.len()
                invariant
                    *t == Tree::List(*v),
                    i <= v.len(),
                    out@.len() == i,
                    forall|j: int| 0 <= j < i ==> (#[trigger] out@[j])@ == Slot::Normal(lift(v@[j]@)),
                decreases v.len() - i,
            {
                proof { lemma_tree_child(*t, i as int); }
                out.push(Value::Normal(lift_tree(&v[i])));
                i += 1;
            }
            let r = TreeInput::List(out);
            assert(r@->List_0 =~= lift(t@)->List_0);
            r
        },
        Tree::Object(kind, v) => {
            let mut out: Vec<(String, Value<TreeInput>)> = Vec::new();
            let mut i: usize = 0;
            while i < v.len()
                invariant
                    *t == Tree::Object(*kind, *v),
                    i <= v.len(),
                    out@.len() == i,
                    forall|j: int| 0 <= j < i ==> (#[trigger] out@[j]).0@ == v@[j].0@ && out@[j].1@ == Slot::Normal(lift(v@[j].1@)),
                decreases v.len() - i,
            {
                proof { lemma_tree_child(*t, i as int); }
                let c = lift_tree(&v[i].1);
                out.push((v[i].0.clone(), Value::Normal(c)));
                i += 1;
            }
            let r = TreeInput::Object(*kind, out);
            assert(r@->Object_1 =~= lift(t@)->Object_1);
            r
        },
    }
}

} // verus!
