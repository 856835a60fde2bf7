use vstd::prelude::*;
use crate::check::{option_view, string_views};
use crate::files::{FileKey, FileToLoad, LoadedFile, LoadedModel, find_loaded, loaded_views, lookup_loaded};
use crate::localize::{TranslatableString, TranslatableView};
use crate::tree::{DocInput, Slot, TreeInput, copy_value, lemma_input_child};
use crate::value::Value;

verus! {

/// The external files a document refers to and has not loaded, in document order.
pub open spec fn files_of(d: DocInput) -> Seq<FileKey>
    decreases d,
{
    match d {
        DocInput::File(f) => seq![f],
        DocInput::List(s) => files_of_items(s),
        DocInput::Object(_, fs) => files_of_fields(fs),
        _ => Seq::empty(),
    }
}

pub open spec fn files_of_items(s: Seq<Slot>) -> Seq<FileKey>
    decreases s,
{
    if s.len() == 0 {
        Seq::empty()
    } else {
        files_of_items(s.subrange(0, s.len() - 1)) + files_of_value(s[s.len() - 1])
    }
}

pub open spec fn files_of_fields(fs: Seq<(Seq<char>, Slot)>) -> Seq<FileKey>
    decreases fs,
{
    if fs.len() == 0 {
        Seq::empty()
    } else {
        files_of_fields(fs.subrange(0, fs.len() - 1)) + files_of_value(fs[fs.len() - 1].1)
    }
}

pub open spec fn files_of_value(v: Slot) -> Seq<FileKey>
    decreases v,
{
    match v {
        Slot::Normal(d) => files_of(d),
        _ => Seq::empty(),
    }
}

/// What a loaded file puts in place of its reference: its text, or, for a
/// file read per locale, the text of each locale and the text without one.
pub open spec fn loaded_node(l: LoadedModel) -> DocInput {
    match l {
        LoadedModel::Normal { content, .. } => DocInput::Text(content),
        LoadedModel::Localized { fallback, localized, .. } => DocInput::Translated(
            TranslatableView { content: fallback, translations: localized },
        ),
    }
}

fn loaded_input(l: &LoadedFile) -> (r: TreeInput)
    ensures
        r@ == loaded_node(l@),
{
    match l {
        LoadedFile::Normal(n) => TreeInput::Text(n.content.clone()),
        LoadedFile::Localized(z) => {
            let mut translations: Vec<(String, String)> = Vec::new();
            let mut i: usize = 0;
            while i < z.localized_content.len()
                invariant
                    i <= z.localized_content.len(),
                    translations@.len() == i,
                    forall|j: int| 0 <= j < i ==> (#[trigger] translations@[j]).0@ == z.localized_content@[j].0@
                        && translations@[j].1@ == z.localized_content@[j].1@,
                decreases z.localized_content.len() - i,
            {
                translations.push((z.localized_content[i].0.clone(), z.localized_content[i].1.clone()));
                i += 1;
            }
            let t = TranslatableString { content: crate::check::copy_option_string(&z.content), translations };
            assert(t@.translations =~= loaded_node(l@)->Translated_0.translations);
            TreeInput::Translated(t)
        },
    }
}

/// The document with each file reference whose file is loaded replaced by
/// what the file puts there; references to files not loaded stay.
pub open spec fn with_loaded(d: DocInput, files: Seq<(FileKey, LoadedModel)>) -> DocInput
    decreases d,
{
    match d {
        DocInput::File(f) => match lookup_loaded(files, f) {
            Some(l) => loaded_node(l),
            None => d,
        },
        DocInput::List(s) => DocInput::List(
            Seq::new(
                s.len(),
                |i: int| if 0 <= i < s.len() { with_loaded_value(s[i], files) } else { Slot::Absent },
            ),
        ),
        DocInput::Object(kind, fs) => DocInput::Object(
            kind,
            Seq::new(
                fs.len(),
                |i: int|
                    if 0 <= i < fs.len() {
                        (fs[i].0, with_loaded_value(fs[i].1, files))
                    } else {
                        (Seq::empty(), Slot::Absent)
                    },
            ),
        ),
        _ => d,
    }
}

pub open spec fn with_loaded_value(v: Slot, files: Seq<(FileKey, LoadedModel)>) -> Slot
    decreases v,
{
    match v {
        Slot::Normal(d) => Slot::Normal(with_loaded(d, files)),
        _ => v,
    }
}

pub open spec fn file_views(v: Seq<FileToLoad>) -> Seq<FileKey> {
    Seq::new(v.len(), |i: int| v[i]@)
}

fn append_files(out: &mut Vec<FileToLoad>, more: Vec<FileToLoad>)
    ensures
        file_views(final(out)@) == file_views(old(out)@) + file_views(more@),
{
    let ghost m = more@;
    let mut more = more;
    out.append(&mut more);
    assert(file_views(out@) =~= file_views(old(out)@) + file_views(m));
}

impl TreeInput {
    /// The files this document refers to and has not loaded yet.
    #[verifier::rlimit(40)]
    pub fn files_to_load(&self) -> (r: Vec<FileToLoad>)
        ensures
            file_views(r@) == files_of(self@),
        decreases self,
    {
        match self {
            TreeInput::File(f) => {
                let r = vec![f.copy()];
                assert(file_views(r@) =~= seq![f@]);
                r
            },
            TreeInput::List(v) => {
                let ghost s = self@->List_0;
                let mut out: Vec<FileToLoad> = Vec::new();
                let mut i: usize = 0;
                assert(file_views(out@) =~= Seq::<FileKey>::empty());
                while i < v.len()
                    invariant
                        *self == TreeInput::List(*v),
                        s == self@->List_0,
                        i <= v.len(),
                        file_views(out@) == files_of_items(s.subrange(0, i as int)),
                    decreases v.len() - i,
                {
                    proof { lemma_input_child(*self, i as int); }
                    let more = files_of_value_exec(&v[i]);
                    append_files(&mut out, more);
                    assert(s.subrange(0, i + 1).subrange(0, i as int) =~= s.subrange(0, i as int));
                    i += 1;
                }
                assert(s.subrange(0, v.len() as int) =~= s);
                out
            },
            TreeInput::Object(kind, v) => {
                let ghost fs = self@->Object_1;
                let mut out: Vec<FileToLoad> = Vec::new();
                let mut i: usize = 0;
                assert(file_views(out@) =~= Seq::<FileKey>::empty());
                while i < v.len()
                    invariant
                        *self == TreeInput::Object(*kind, *v),
                        fs == self@->Object_1,
                        i <= v.len(),
                        file_views(out@) == files_of_fields(fs.subrange(0, i as int)),
                    decreases v.len() - i,
                {
                    proof { lemma_input_child(*self, i as int); }
                    let more = files_of_value_exec(&v[i].1);
                    append_files(&mut out, more);
                    assert(fs.subrange(0, i + 1).subrange(0, i as int) =~= fs.subrange(0, i as int));
                    i += 1;
                }
                assert(fs.subrange(0, v.len() as int) =~= fs);
                out
            },
            _ => {
                let r: Vec<FileToLoad> = Vec::new();
                assert(file_views(r@) =~= Seq::<FileKey>::empty());
                r
            },
        }
    }

    /// Puts the text of each loaded file in place of its references.
    pub fn insert_loaded_files(&mut self, files: &Vec<(FileToLoad, LoadedFile)>)
        ensures
            final(self)@ == with_loaded(old(self)@, loaded_views(files@)),
    {
        *self = loaded_into(self, files);
    }

    /// The paths of the files this document refers to, each once.
    pub fn dependencies(&self) -> (r: Vec<String>)
        ensures
            string_views(r@).no_duplicates(),
            forall|p: Seq<char>|
                string_views(r@).contains(p) <==> exists|i: int| 0 <= i < files_of(self@).len() && (#[trigger] files_of(self@)[i]).path == p,
    {
        let files = self.files_to_load();
        let ghost fv = files_of(self@);
        let mut r: Vec<String> = Vec::new();
        let mut i: usize = 0;
        while i < files.len()
            invariant
                i <= files.len(),
                fv == file_views(files@),
                string_views(r@).no_duplicates(),
                forall|p: Seq<char>|
                    string_views(r@).contains(p) <==> exists|j: int| 0 <= j < i && (#[trigger] fv[j]).path == p,
            decreases files.len() - i,
        {
            let mut seen = false;
            let mut k: usize = 0;
            while k < r.len()
                invariant
                    k <= r.len(),
                    i < files.len(),
                    seen == exists|j: int| 0 <= j < k && string_views(r@)[j] == files@[i as int].file_path@,
                decreases r.len() - k,
            {
                assert(string_views(r@)[k as int] == r@[k as int]@);
                if r[k] == files[i].file_path {
                    seen = true;
                }
                k += 1;
            }
            let ghost before = string_views(r@);
            if !seen {
                r.push(files[i].file_path.clone());
                assert(string_views(r@) =~= before.push(fv[i as int].path));
            }
            assert forall|p: Seq<char>|
                string_views(r@).contains(p) <==> exists|j: int| 0 <= j < i + 1 && (#[trigger] fv[j]).path == p by {
                if string_views(r@).contains(p) {
                    if before.contains(p) {
                        let j = choose|j: int| 0 <= j < i && (#[trigger] fv[j]).path == p;
                        assert(0 <= j < i + 1 && fv[j].path == p);
                    } else {
                        assert(fv[i as int].path == p);
                    }
                }
                if exists|j: int| 0 <= j < i + 1 && (#[trigger] fv[j]).path == p {
                    let j = choose|j: int| 0 <= j < i + 1 && (#[trigger] fv[j]).path == p;
                    if j < i {
                        assert(before.contains(p));
                        let m = choose|m: int| 0 <= m < before.len() && before[m] == p;
                        assert(string_views(r@)[m] == p);
                    } else if seen {
                        let m = choose|m: int| 0 <= m < r.len() && string_views(r@)[m] == files@[i as int].file_path@;
                        assert(string_views(r@)[m] == p);
                    } else {
                        assert(string_views(r@)[before.len() as int] == p);
                    }
                }
            }
            i += 1;
        }
        r
    }
}

fn files_of_value_exec(v: &Value<TreeInput>) -> (r: Vec<FileToLoad>)
    ensures
        file_views(r@) == files_of_value(v@),
    decreases v,
{
    match v {
        Value::Normal(t) => t.files_to_load(),
        _ => {
            let r: Vec<FileToLoad> = Vec::new();
            assert(file_views(r@) =~= Seq::<FileKey>::empty());
            r
        },
    }
}

fn loaded_into(t: &TreeInput, files: &Vec<(FileToLoad, LoadedFile)>) -> (r: TreeInput)
    ensures
        r@ == with_loaded(t@, loaded_views(files@)),
    decreases t,
{
    match t {
        TreeInput::File(f) => {
            match find_loaded(files, f) {
                Some(l) => loaded_input(l),
                None => t.copy(),
            }
        },
        TreeInput::List(v) => {
            let mut out: Vec<Value<TreeInput>> = Vec::new();
            let mut i: usize = 0;
            while i < v.len()
                invariant
                    *t == TreeInput::List(*v),
                    i <= v.len(),
                    out@.len() == i,
                    forall|j: int| 0 <= j < i ==> (#[trigger] out@[j])@ == with_loaded_value(v@[j]@, loaded_views(files@)),
                decreases v.len() - i,
            {
                proof { lemma_input_child(*t, i as int); }
                out.push(loaded_into_value(&v[i], files));
                i += 1;
            }
            let r = TreeInput::List(out);
            assert(r@->List_0 =~= with_loaded(t@, loaded_views(files@))->List_0);
            r
        },
        TreeInput::Object(kind, v) => {
            let mut out: Vec<(String, Value<TreeInput>)> = Vec::new();
            let mut i: usize = 0;
            while i < v.len()
                invariant
                    *t == TreeInput::Object(*kind, *v),
                    i <= v.len(),
                    out@.len() == i,
                    forall|j: int| 0 <= j < i ==> (#[trigger] out@[j]).0@ == v@[j].0@ && out@[j].1@ == with_loaded_value(v@[j].1@, loaded_views(files@)),
                decreases v.len() - i,
            {
                proof { lemma_input_child(*t, i as int); }
                let c = loaded_into_value(&v[i].1, files);
                out.push((v[i].0.clone(), c));
                i += 1;
            }
            let r = TreeInput::Object(*kind, out);
            assert(r@->Object_1 =~= with_loaded(t@, loaded_views(files@))->Object_1);
            r
        },
        _ => t.copy(),
    }
}

fn loaded_into_value(v: &Value<TreeInput>, files: &Vec<(FileToLoad, LoadedFile)>) -> (r: Value<TreeInput>)
    ensures
        r@ == with_loaded_value(v@, loaded_views(files@)),
    decreases v,
{
    match v {
        Value::Normal(t) => Value::Normal(loaded_into(t, files)),
        _ => copy_value(v),
    }
}

/// Putting in the same loaded files a second time changes nothing: a
/// reference that a pass left in place has no text among those files.
pub proof fn lemma_with_loaded_idempotent(d: DocInput, files: Seq<(FileKey, LoadedModel)>)
    ensures
        with_loaded(with_loaded(d, files), files) == with_loaded(d, files),
    decreases d,
{
    match d {
        DocInput::List(s) => {
            let once = with_loaded(d, files)->List_0;
            assert forall|i: int| 0 <= i < s.len() implies #[trigger] with_loaded(with_loaded(d, files), files)->List_0[i] == once[i] by {
                if let Slot::Normal(x) = s[i] {
                    lemma_with_loaded_idempotent(x, files);
                }
            }
            assert(with_loaded(with_loaded(d, files), files)->List_0 =~= once);
        },
        DocInput::Object(kind, fs) => {
            let once = with_loaded(d, files)->Object_1;
            assert forall|i: int| 0 <= i < fs.len() implies #[trigger] with_loaded(with_loaded(d, files), files)->Object_1[i] == once[i] by {
                if let Slot::Normal(x) = fs[i].1 {
                    lemma_with_loaded_idempotent(x, files);
                }
            }
            assert(with_loaded(with_loaded(d, files), files)->Object_1 =~= once);
        },
        _ => {},
    }
}

} // verus!
