use vstd::prelude::*;
use crate::check::missing_here;
use crate::resolve::{complete, lemma_fields_complete, missing_of_value};
use crate::tree::{DocInput, ObjectKind, Slot, TreeInput, copy_value, lemma_input_child};
use crate::value::Value;

verus! {

/// The value of the first field named `key`, absent when there is none.
pub open spec fn field_of(fs: Seq<(Seq<char>, Slot)>, key: Seq<char>) -> Slot
    decreases fs.len(),
{
    if fs.len() == 0 {
        Slot::Absent
    } else if fs[0].0 == key {
        fs[0].1
    } else {
        field_of(fs.subrange(1, fs.len() as int), key)
    }
}

/// An absent value takes the fallback; two struct-like objects are merged
/// field by field; anything else that is present, maps and lists included,
/// stays as it is.
pub open spec fn overlay_value(a: Slot, b: Slot) -> Slot
    decreases a,
{
    match a {
        Slot::Absent => b,
        Slot::Normal(x) => match b {
            Slot::Normal(y) => Slot::Normal(overlay(x, y)),
            _ => a,
        },
        _ => a,
    }
}

/// Each field of an object is overlaid with the field of the same name in
/// the fallback; lists and leaves are kept whole.
pub open spec fn overlay(x: DocInput, y: DocInput) -> DocInput
    decreases x,
{
    match x {
        DocInput::Object(ObjectKind::Record, fs) => match y {
            DocInput::Object(ObjectKind::Record, gs) => DocInput::Object(
                ObjectKind::Record,
                Seq::new(
                    fs.len(),
                    |i: int|
                        if 0 <= i < fs.len() {
                            (fs[i].0, overlay_value(fs[i].1, field_of(gs, fs[i].0)))
                        } else {
                            (Seq::empty(), Slot::Absent)
                        },
                ),
            ),
            _ => x,
        },
        _ => x,
    }
}

/// Overlays with each fallback in turn, the closest first.
pub open spec fn combine(d: DocInput, defaults: Seq<DocInput>) -> DocInput
    decreases defaults.len(),
{
    if defaults.len() == 0 {
        d
    } else {
        combine(overlay(d, defaults[0]), defaults.subrange(1, defaults.len() as int))
    }
}

pub open spec fn input_views(v: Seq<TreeInput>) -> Seq<DocInput> {
    Seq::new(v.len(), |i: int| v[i]@)
}

fn find_field<'a>(gs: &'a Vec<(String, Value<TreeInput>)>, key: &String) -> (r: Option<&'a Value<TreeInput>>)
    ensures
        match r {
            Some(v) => field_of(fields_view(gs@), key@) == v@,
            None => field_of(fields_view(gs@), key@) == Slot::Absent,
        },
{
    let ghost all = fields_view(gs@);
    let mut i: usize = 0;
    assert(all.subrange(0, all.len() as int) =~= all);
    while i < gs.len()
        invariant
            i <= gs.len(),
            all == fields_view(gs@),
            field_of(all, key@) == field_of(all.subrange(i as int, all.len() as int), key@),
        decreases gs.len() - i,
    {
        let ghost rest = all.subrange(i as int, all.len() as int);
        assert(rest.subrange(1, rest.len() as int) =~= all.subrange(i + 1, all.len() as int));
        if gs[i].0 == *key {
            return Some(&gs[i].1);
        }
        i += 1;
    }
    None
}

pub open spec fn fields_view(v: Seq<(String, Value<TreeInput>)>) -> Seq<(Seq<char>, Slot)> {
    Seq::new(v.len(), |i: int| (v[i].0@, v[i].1@))
}

fn overlaid(x: &TreeInput, y: &TreeInput) -> (r: TreeInput)
    ensures
        r@ == overlay(x@, y@),
    decreases x,
{
    match x {
        TreeInput::Object(ObjectKind::Record, fs) => match y {
            TreeInput::Object(ObjectKind::Record, gs) => {
                let ghost yfs = y@->Object_1;
                assert(yfs =~= fields_view(gs@));
                let mut out: Vec<(String, Value<TreeInput>)> = Vec::new();
                let mut i: usize = 0;
                while i < fs.len()
                    invariant
                        *x == TreeInput::Object(ObjectKind::Record, *fs),
                        yfs == fields_view(gs@),
                        yfs == y@->Object_1,
                        i <= fs.len(),
                        out@.len() == i,
                        forall|j: int| 0 <= j < i ==> (#[trigger] out@[j]).0@ == fs@[j].0@ && out@[j].1@ == overlay_value(fs@[j].1@, field_of(yfs, fs@[j].0@)),
                    decreases fs.len() - i,
                {
                    proof { lemma_input_child(*x, i as int); }
                    let c = match find_field(gs, &fs[i].0) {
                        Some(g) => overlaid_value(&fs[i].1, g),
                        None => overlaid_value(&fs[i].1, &Value::Absent),
                    };
                    out.push((fs[i].0.clone(), c));
                    i += 1;
                }
                let r = TreeInput::Object(ObjectKind::Record, out);
                assert(r@->Object_1 =~= overlay(x@, y@)->Object_1);
                r
            },
            _ => x.copy(),
        },
        _ => x.copy(),
    }
}

fn overlaid_value(a: &Value<TreeInput>, b: &Value<TreeInput>) -> (r: Value<TreeInput>)
    ensures
        r@ == overlay_value(a@, b@),
    decreases a,
{
    match a {
        Value::Absent => copy_value(b),
        Value::Normal(x) => match b {
            Value::Normal(y) => Value::Normal(overlaid(x, y)),
            _ => copy_value(a),
        },
        _ => copy_value(a),
    }
}

impl TreeInput {
    /// Fills what is absent here from `other`, recursing into objects.
    pub fn overwrite(&mut self, other: &TreeInput)
        ensures
            final(self)@ == overlay(old(self)@, other@),
    {
        *self = overlaid(self, other);
    }

    /// Overlays the document with each of `defaults` in turn, the closest first.
    pub fn combine_with_defaults(&mut self, defaults: &Vec<TreeInput>)
        ensures
            final(self)@ == combine(old(self)@, input_views(defaults@)),
    {
        let ghost ds = input_views(defaults@);
        let mut i: usize = 0;
        assert(ds.subrange(0, ds.len() as int) =~= ds);
        while i < defaults.len()
            invariant
                i <= defaults.len(),
                ds == input_views(defaults@),
                combine(old(self)@, ds) == combine(self@, ds.subrange(i as int, ds.len() as int)),
            decreases defaults.len() - i,
        {
            let ghost rest = ds.subrange(i as int, ds.len() as int);
            assert(rest.subrange(1, rest.len() as int) =~= ds.subrange(i + 1, ds.len() as int));
            self.overwrite(&defaults[i]);
            i += 1;
        }
        assert(ds.subrange(ds.len() as int, ds.len() as int) =~= Seq::<DocInput>::empty());
    }
}

/// Overlaying a document in which nothing is missing leaves it unchanged,
/// whatever the fallback.
pub proof fn lemma_overlay_complete(x: DocInput, y: DocInput)
    requires
        complete(x),
    ensures
        overlay(x, y) == x,
    decreases x,
{
    match x {
        DocInput::Object(ObjectKind::Record, fs) => match y {
            DocInput::Object(ObjectKind::Record, gs) => {
                assert forall|i: int| 0 <= i < fs.len() implies #[trigger] overlay(x, y)->Object_1[i] == fs[i] by {
                    lemma_fields_complete(fs, false, i);
                    assert(!(fs[i].1 is Absent)) by {
                        if fs[i].1 is Absent {
                            assert(missing_of_value(fs[i].1) == missing_here(None));
                        }
                    }
                    if let Slot::Normal(c) = fs[i].1 {
                        if let Slot::Normal(g) = field_of(gs, fs[i].0) {
                            lemma_overlay_complete(c, g);
                        }
                    }
                    assert(overlay_value(fs[i].1, field_of(gs, fs[i].0)) == fs[i].1);
                }
                assert(overlay(x, y)->Object_1 =~= fs);
            },
            _ => {},
        },
        _ => {},
    }
}

/// Combining a document in which nothing is missing with any list of
/// defaults leaves it unchanged.
pub proof fn lemma_combine_complete(x: DocInput, defaults: Seq<DocInput>)
    requires
        complete(x),
    ensures
        combine(x, defaults) == x,
    decreases defaults.len(),
{
    if defaults.len() > 0 {
        lemma_overlay_complete(x, defaults[0]);
        lemma_combine_complete(x, defaults.subrange(1, defaults.len() as int));
    }
}

} // verus!
