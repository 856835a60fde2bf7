use vstd::prelude::*;
use vstd::string::*;
use crate::check::{copy_strings, string_views};
use crate::resolve::{lift, lift_tree};
use crate::tree::{Doc, DocInput, Slot, Tree, TreeInput, copy_value, lemma_input_child};
use crate::value::Value;

verus! {

/// The document with every placeholder named `key` replaced by `val`.
pub open spec fn substitute(d: DocInput, key: Seq<char>, val: Doc) -> DocInput
    decreases d,
{
    match d {
        DocInput::List(s) => DocInput::List(
            Seq::new(
                s.len(),
                |i: int| if 0 <= i < s.len() { substitute_value(s[i], key, val) } else { Slot::Absent },
            ),
        ),
        DocInput::Object(kind, fs) => DocInput::Object(
            kind,
            Seq::new(
                fs.len(),
                |i: int|
                    if 0 <= i < fs.len() {
                        (fs[i].0, substitute_value(fs[i].1, key, val))
                    } else {
                        (Seq::empty(), Slot::Absent)
                    },
            ),
        ),
        _ => d,
    }
}

pub open spec fn substitute_value(v: Slot, key: Seq<char>, val: Doc) -> Slot
    decreases v,
{
    match v {
        Slot::Normal(d) => Slot::Normal(substitute(d, key, val)),
        Slot::Template(k) => if k == key {
            Slot::Normal(lift(val))
        } else {
            v
        },
        _ => v,
    }
}

impl TreeInput {
    /// Fills every placeholder named `key` with `val`; other placeholders stay.
    pub fn insert_template_value(&mut self, key: &str, val: &Tree)
        ensures
            final(self)@ == substitute(old(self)@, key@, val@),
    {
        let k = String::from_str(key);
        *self = substituted(self, &k, val);
    }
}

fn substituted(t: &TreeInput, key: &String, val: &Tree) -> (r: TreeInput)
    ensures
        r@ == substitute(t@, key@, val@),
    decreases t,
{
    match t {
        TreeInput::List(v) => {
            let mut out: Vec<Value<TreeInput>> = Vec::new();
            let mut i: usize = 0;
            while i < v.len()
                invariant
                    *t == TreeInput::List(*v),
                    i <= v.len(),
                    out@.len() == i,
                    forall|j: int| 0 <= j < i ==> (#[trigger] out@[j])@ == substitute_value(v@[j]@, key@, val@),
                decreases v.len() - i,
            {
                proof { lemma_input_child(*t, i as int); }
                out.push(substituted_value(&v[i], key, val));
                i += 1;
            }
            let r = TreeInput::List(out);
            assert(r@->List_0 =~= substitute(t@, key@, val@)->List_0);
            r
        },
        TreeInput::Object(kind, v) => {
            let mut out: Vec<(String, Value<TreeInput>)> = Vec::new();
            let mut i: usize = 0;
            while i < v.len()
                invariant
                    *t == TreeInput::Object(*kind, *v),
                    i <= v.len(),
                    out@.len() == i,
                    forall|j: int| 0 <= j < i ==> (#[trigger] out@[j]).0@ == v@[j].0@ && out@[j].1@ == substitute_value(v@[j].1@, key@, val@),
                decreases v.len() - i,
            {
                proof { lemma_input_child(*t, i as int); }
                let c = substituted_value(&v[i].1, key, val);
                out.push((v[i].0.clone(), c));
                i += 1;
            }
            let r = TreeInput::Object(*kind, out);
            assert(r@->Object_1 =~= substitute(t@, key@, val@)->Object_1);
            r
        },
        _ => t.copy(),
    }
}

fn substituted_value(v: &Value<TreeInput>, key: &String, val: &Tree) -> (r: Value<TreeInput>)
    ensures
        r@ == substitute_value(v@, key@, val@),
    decreases v,
{
    match v {
        Value::Normal(t) => Value::Normal(substituted(t, key, val)),
        Value::Template(k) => {
            if *k == *key {
                Value::Normal(lift_tree(val))
            } else {
                copy_value(v)
            }
        },
        _ => copy_value(v),
    }
}

/// Raised when a template file is reached again while it is being expanded:
/// the file, and the chain of files being expanded at that moment.
#[derive(Clone, Debug)]
pub struct RecursiveTemplatesError(pub String, pub Vec<String>);

/// The template files being expanded, outermost first.
#[derive(Clone, Debug)]
pub struct TemplateChain {
    pub paths: Vec<String>,
}

/// The outcome of entering `path` with `chain` being expanded: the longer
/// chain, or the cycle found.
pub open spec fn enter_chain(chain: Seq<Seq<char>>, path: Seq<char>) -> Result<Seq<Seq<char>>, (Seq<char>, Seq<Seq<char>>)> {
    if chain.contains(path) {
        Err((path, chain))
    } else {
        Ok(chain.push(path))
    }
}

impl View for TemplateChain {
    type V = Seq<Seq<char>>;

    open spec fn view(&self) -> Seq<Seq<char>> {
        string_views(self.paths@)
    }
}

impl TemplateChain {
    pub fn new() -> (r: Self)
        ensures
            r@ == Seq::<Seq<char>>::empty(),
    {
        let r = TemplateChain { paths: Vec::new() };
        assert(r@ =~= Seq::<Seq<char>>::empty());
        r
    }

    /// Starts expanding `path`, unless it is already being expanded.
    pub fn enter(&mut self, path: &String) -> (r: Result<(), RecursiveTemplatesError>)
        ensures
            r is Ok <==> enter_chain(old(self)@, path@) is Ok,
            r is Ok ==> enter_chain(old(self)@, path@) == Ok::<Seq<Seq<char>>, (Seq<char>, Seq<Seq<char>>)>(final(self)@),
            r matches Err(e) ==> enter_chain(old(self)@, path@) == Err::<Seq<Seq<char>>, (Seq<char>, Seq<Seq<char>>)>((e.0@, string_views(e.1@))),
            r is Err ==> final(self)@ == old(self)@,
    {
        let mut i: usize = 0;
        while i < self.paths.len()
            invariant
                i <= self.paths.len(),
                forall|j: int| 0 <= j < i ==> self@[j] != path@,
            decreases self.paths.len() - i,
        {
            if self.paths[i] == *path {
                assert(self@[i as int] == path@);
                return Err(RecursiveTemplatesError(path.clone(), crate::check::copy_strings(&self.paths)));
            }
            i += 1;
        }
        assert(!self@.contains(path@));
        self.paths.push(path.clone());
        assert(self@ =~= old(self)@.push(path@));
        Ok(())
    }

    /// Ends the expansion of the innermost file.
    pub fn leave(&mut self)
        ensures
            final(self)@ == (if old(self)@.len() == 0 { old(self)@ } else { old(self)@.drop_last() }),
    {
        if self.paths.len() > 0 {
            self.paths.pop();
            assert(self@ =~= old(self)@.drop_last());
        }
    }
}

/// A file that is already being expanded cannot be entered again, whatever
/// was entered after it.
pub proof fn lemma_cycle_detected(chain: Seq<Seq<char>>, path: Seq<char>, between: Seq<Seq<char>>)
    ensures
        enter_chain(chain.push(path) + between, path) == Err::<Seq<Seq<char>>, (Seq<char>, Seq<Seq<char>>)>((path, chain.push(path) + between)),
{
    let c = chain.push(path) + between;
    assert(c[chain.len() as int] == path);
}

/// A reference to a template file, with the values for its placeholders.
#[derive(Debug)]
pub struct TemplateFile {
    pub relative_template_path: String,
    pub data: Vec<(String, Tree)>,
}

/// The content of a document file: a template reference, or a document.
#[derive(Debug)]
pub enum ExamFileType {
    Template(TemplateFile),
    Normal(TreeInput),
}

pub enum FileModel {
    Template { path: Seq<char>, data: Seq<(Seq<char>, Doc)> },
    Normal(DocInput),
}

impl View for ExamFileType {
    type V = FileModel;

    open spec fn view(&self) -> FileModel {
        match self {
            ExamFileType::Template(t) => FileModel::Template {
                path: t.relative_template_path@,
                data: Seq::new(t.data@.len(), |i: int| (t.data@[i].0@, t.data@[i].1@)),
            },
            ExamFileType::Normal(d) => FileModel::Normal(d@),
        }
    }
}

/// A file that a template refers to and that could not be read.
#[derive(Clone, Debug)]
pub struct FileReadError(pub String);

/// Why a document file could not be expanded.
#[derive(Debug)]
pub enum ParseError {
    FileReadError(FileReadError),
    RecursiveTemplates(RecursiveTemplatesError),
}

pub enum ParseErrorModel {
    FileRead(Seq<char>),
    Recursive(Seq<char>, Seq<Seq<char>>),
}

impl View for ParseError {
    type V = ParseErrorModel;

    open spec fn view(&self) -> ParseErrorModel {
        match self {
            ParseError::FileReadError(e) => ParseErrorModel::FileRead(e.0@),
            ParseError::RecursiveTemplates(e) => ParseErrorModel::Recursive(e.0@, string_views(e.1@)),
        }
    }
}

pub open spec fn library_view(lib: Seq<(String, ExamFileType)>) -> Seq<(Seq<char>, FileModel)> {
    Seq::new(lib.len(), |i: int| (lib[i].0@, lib[i].1@))
}

/// The first file of the library stored under `path`.
pub open spec fn lookup_file(lib: Seq<(Seq<char>, FileModel)>, path: Seq<char>) -> Option<FileModel>
    decreases lib.len(),
{
    if lib.len() == 0 {
        None
    } else if lib[0].0 == path {
        Some(lib[0].1)
    } else {
        lookup_file(lib.subrange(1, lib.len() as int), path)
    }
}

/// Applies the substitutions in order.
pub open spec fn substitute_all(d: DocInput, data: Seq<(Seq<char>, Doc)>) -> DocInput
    decreases data.len(),
{
    if data.len() == 0 {
        d
    } else {
        substitute_all(substitute(d, data[0].0, data[0].1), data.subrange(1, data.len() as int))
    }
}

pub open spec fn library_paths(lib: Seq<(Seq<char>, FileModel)>) -> Seq<Seq<char>> {
    Seq::new(lib.len(), |i: int| lib[i].0)
}

/// Every file being expanded is in the library, and none twice.
pub open spec fn chain_in_library(chain: Seq<Seq<char>>, lib: Seq<(Seq<char>, FileModel)>) -> bool {
    &&& chain.no_duplicates()
    &&& forall|i: int| 0 <= i < chain.len() ==> library_paths(lib).contains(#[trigger] chain[i])
}

/// The document a file stands for: a template reference is replaced by the
/// expansion of the file it names, with its values substituted, unless that
/// file is already being expanded or is not in the library.
pub open spec fn expand(f: FileModel, lib: Seq<(Seq<char>, FileModel)>, chain: Seq<Seq<char>>) -> Result<DocInput, ParseErrorModel>
    decreases lib.len() - chain.len(),
    when chain_in_library(chain, lib)
    via expand_decreases
{
    match f {
        FileModel::Normal(d) => Ok(d),
        FileModel::Template { path, data } => if chain.contains(path) {
            Err(ParseErrorModel::Recursive(path, chain))
        } else {
            match lookup_file(lib, path) {
                None => Err(ParseErrorModel::FileRead(path)),
                Some(g) => match expand(g, lib, chain.push(path)) {
                    Ok(d) => Ok(substitute_all(d, data)),
                    Err(e) => Err(e),
                },
            }
        },
    }
}

pub proof fn lemma_lookup_found(lib: Seq<(Seq<char>, FileModel)>, path: Seq<char>)
    ensures
        lookup_file(lib, path) is Some ==> library_paths(lib).contains(path),
    decreases lib.len(),
{
    if lib.len() > 0 && lib[0].0 != path {
        let rest = lib.subrange(1, lib.len() as int);
        lemma_lookup_found(rest, path);
        if lookup_file(rest, path) is Some {
            let j = choose|j: int| 0 <= j < library_paths(rest).len() && library_paths(rest)[j] == path;
            assert(library_paths(lib)[j + 1] == path);
        }
    } else if lib.len() > 0 {
        assert(library_paths(lib)[0] == path);
    }
}

/// Distinct files of the library are no more than the library holds.
pub proof fn lemma_chain_bounded(chain: Seq<Seq<char>>, lib: Seq<(Seq<char>, FileModel)>)
    requires
        chain_in_library(chain, lib),
    ensures
        chain.len() <= lib.len(),
{
    let paths = library_paths(lib);
    chain.unique_seq_to_set();
    paths.lemma_cardinality_of_set();
    assert(chain.to_set().subset_of(paths.to_set())) by {
        assert forall|x: Seq<char>| chain.to_set().contains(x) implies paths.to_set().contains(x) by {
            let i = choose|i: int| 0 <= i < chain.len() && chain[i] == x;
            assert(paths.contains(chain[i]));
        }
    }
    vstd::set_lib::lemma_len_subset(chain.to_set(), paths.to_set());
}

pub proof fn lemma_chain_grows(chain: Seq<Seq<char>>, lib: Seq<(Seq<char>, FileModel)>, path: Seq<char>)
    requires
        chain_in_library(chain, lib),
        !chain.contains(path),
        lookup_file(lib, path) is Some,
    ensures
        chain_in_library(chain.push(path), lib),
        chain.len() < lib.len(),
{
    lemma_lookup_found(lib, path);
    let c = chain.push(path);
    assert forall|i: int| 0 <= i < c.len() implies library_paths(lib).contains(#[trigger] c[i]) by {
        if i < chain.len() {
            assert(c[i] == chain[i]);
        }
    }
    assert(c.no_duplicates()) by {
        assert forall|i: int, j: int| 0 <= i < c.len() && 0 <= j < c.len() && i != j implies c[i] != c[j] by {
            if i < chain.len() && j < chain.len() {
                assert(c[i] == chain[i] && c[j] == chain[j]);
            } else if i < chain.len() {
                assert(c[i] == chain[i]);
            } else {
                assert(c[j] == chain[j]);
            }
        }
    }
    lemma_chain_bounded(c, lib);
}

#[via_fn]
proof fn expand_decreases(f: FileModel, lib: Seq<(Seq<char>, FileModel)>, chain: Seq<Seq<char>>) {
    if let FileModel::Template { path, data } = f {
        if !chain.contains(path) && lookup_file(lib, path) is Some {
            lemma_chain_grows(chain, lib, path);
        }
    }
}

fn find_file<'a>(lib: &'a Vec<(String, ExamFileType)>, path: &String) -> (r: Option<&'a ExamFileType>)
    ensures
        match r {
            Some(f) => lookup_file(library_view(lib@), path@) == Some(f@),
            None => lookup_file(library_view(lib@), path@) is None,
        },
{
    let ghost all = library_view(lib@);
    let mut i: usize = 0;
    assert(all.subrange(0, all.len() as int) =~= all);
    while i < lib.len()
        invariant
            i <= lib.len(),
            all == library_view(lib@),
            lookup_file(all, path@) == lookup_file(all.subrange(i as int, all.len() as int), path@),
        decreases lib.len() - i,
    {
        let ghost rest = all.subrange(i as int, all.len() as int);
        assert(rest.subrange(1, rest.len() as int) =~= all.subrange(i + 1, all.len() as int));
        if lib[i].0 == *path {
            return Some(&lib[i].1);
        }
        i += 1;
    }
    None
}

fn expand_in(f: &ExamFileType, lib: &Vec<(String, ExamFileType)>, chain: &mut TemplateChain) -> (r: Result<TreeInput, ParseError>)
    requires
        chain_in_library(old(chain)@, library_view(lib@)),
    ensures
        final(chain)@ == old(chain)@,
        match r {
            Ok(d) => expand(f@, library_view(lib@), old(chain)@) == Ok::<DocInput, ParseErrorModel>(d@),
            Err(e) => expand(f@, library_view(lib@), old(chain)@) == Err::<DocInput, ParseErrorModel>(e@),
        },
    decreases lib@.len() - old(chain)@.len(),
{
    match f {
        ExamFileType::Normal(d) => Ok(d.copy()),
        ExamFileType::Template(t) => {
            let path = &t.relative_template_path;
            let ghost before = chain@;
            match chain.enter(path) {
                Err(e) => {
                    return Err(ParseError::RecursiveTemplates(e));
                },
                Ok(()) => {},
            }
            match find_file(lib, path) {
                None => {
                    chain.leave();
                    Err(ParseError::FileReadError(FileReadError(path.clone())))
                },
                Some(g) => {
                    proof { lemma_chain_grows(before, library_view(lib@), path@); }
                    let inner = expand_in(g, lib, chain);
                    chain.leave();
                    assert(before.push(path@).drop_last() =~= before);
                    match inner {
                        Err(e) => Err(e),
                        Ok(d) => {
                            let mut d = d;
                            let ghost data = f@->Template_data;
                            let mut i: usize = 0;
                            assert(data.subrange(0, data.len() as int) =~= data);
                            while i < t.data.len()
                                invariant
                                    i <= t.data.len(),
                                    data == f@->Template_data,
                                    *f == ExamFileType::Template(*t),
                                    substitute_all(d@, data.subrange(i as int, data.len() as int))
                                        == substitute_all(inner->Ok_0@, data),
                                decreases t.data.len() - i,
                            {
                                let ghost rest = data.subrange(i as int, data.len() as int);
                                assert(rest.subrange(1, rest.len() as int) =~= data.subrange(i + 1, data.len() as int));
                                d.insert_template_value(t.data[i].0.as_str(), &t.data[i].1);
                                i += 1;
                            }
                            assert(data.subrange(data.len() as int, data.len() as int) =~= Seq::<(Seq<char>, Doc)>::empty());
                            Ok(d)
                        },
                    }
                },
            }
        },
    }
}

/// Expands a document file: the templates it refers to are looked up in
/// `library`, expanded in turn and filled with their values.
pub fn expand_file(f: &ExamFileType, library: &Vec<(String, ExamFileType)>) -> (r: Result<TreeInput, ParseError>)
    ensures
        match r {
            Ok(d) => expand(f@, library_view(library@), Seq::empty()) == Ok::<DocInput, ParseErrorModel>(d@),
            Err(e) => expand(f@, library_view(library@), Seq::empty()) == Err::<DocInput, ParseErrorModel>(e@),
        },
{
    let mut chain = TemplateChain::new();
    expand_in(f, library, &mut chain)
}

/// A template that names a second template naming the first one again is
/// refused, with the first file and the chain of the two.
pub proof fn lemma_two_file_cycle(
    lib: Seq<(Seq<char>, FileModel)>,
    a: Seq<char>,
    b: Seq<char>,
    data_a: Seq<(Seq<char>, Doc)>,
    data_b: Seq<(Seq<char>, Doc)>,
    data: Seq<(Seq<char>, Doc)>,
)
    requires
        a != b,
        lookup_file(lib, a) == Some(FileModel::Template { path: b, data: data_b }),
        lookup_file(lib, b) == Some(FileModel::Template { path: a, data: data_a }),
    ensures
        expand(FileModel::Template { path: a, data }, lib, Seq::empty())
            == Err::<DocInput, ParseErrorModel>(ParseErrorModel::Recursive(a, seq![a, b])),
{
    let empty = Seq::<Seq<char>>::empty();
    assert(chain_in_library(empty, lib));
    lemma_chain_grows(empty, lib, a);
    assert(empty.push(a) =~= seq![a]);
    assert(!seq![a].contains(b)) by {
        assert(seq![a][0] != b);
    }
    lemma_chain_grows(seq![a], lib, b);
    assert(seq![a].push(b) =~= seq![a, b]);
    assert(seq![a, b][0] == a);
    assert(seq![a, b].contains(a));
    assert(expand(FileModel::Template { path: a, data: data_a }, lib, seq![a, b])
        == Err::<DocInput, ParseErrorModel>(ParseErrorModel::Recursive(a, seq![a, b])));
    assert(expand(FileModel::Template { path: b, data: data_b }, lib, seq![a])
        == Err::<DocInput, ParseErrorModel>(ParseErrorModel::Recursive(a, seq![a, b])));
}

} // verus!
