use vstd::prelude::*;

verus! {

/// An external file that a document refers to; the same path read per locale
/// or once is a different file.
#[derive(Clone, Debug)]
pub struct FileToLoad {
    pub file_path: String,
    pub locale_dependant: bool,
}

pub struct FileKey {
    pub path: Seq<char>,
    pub locale_dependant: bool,
}

impl View for FileToLoad {
    type V = FileKey;

    open spec fn view(&self) -> FileKey {
        FileKey { path: self.file_path@, locale_dependant: self.locale_dependant }
    }
}

impl FileToLoad {
    pub fn copy(&self) -> (r: Self)
        ensures
            r@ == self@,
    {
        FileToLoad { file_path: self.file_path.clone(), locale_dependant: self.locale_dependant }
    }
}

impl PartialEq for FileToLoad {
    fn eq(&self, other: &FileToLoad) -> (r: bool) {
        self.locale_dependant == other.locale_dependant && self.file_path == other.file_path
    }
}

impl vstd::std_specs::cmp::PartialEqSpecImpl for FileToLoad {
    open spec fn obeys_eq_spec() -> bool {
        true
    }

    open spec fn eq_spec(&self, other: &FileToLoad) -> bool {
        self@ == other@
    }
}

/// The content read for a file.
#[derive(Clone, Debug)]
pub enum LoadedFile {
    Normal(LoadedNormalFile),
    Localized(LoadedLocalizedFile),
}

#[derive(Clone, Debug)]
pub struct LoadedNormalFile {
    pub file_path: String,
    pub content: String,
}

/// A file read once per locale, with the content found without a locale.
#[derive(Clone, Debug)]
pub struct LoadedLocalizedFile {
    pub file_path: String,
    pub content: Option<String>,
    pub localized_content: Vec<(String, String)>,
}

pub enum LoadedModel {
    Normal { path: Seq<char>, content: Seq<char> },
    Localized { path: Seq<char>, fallback: Option<Seq<char>>, localized: Seq<(Seq<char>, Seq<char>)> },
}

impl View for LoadedFile {
    type V = LoadedModel;

    open spec fn view(&self) -> LoadedModel {
        match self {
            LoadedFile::Normal(n) => LoadedModel::Normal { path: n.file_path@, content: n.content@ },
            LoadedFile::Localized(l) => LoadedModel::Localized {
                path: l.file_path@,
                fallback: crate::check::option_view(l.content),
                localized: Seq::new(
                    l.localized_content@.len(),
                    |i: int| (l.localized_content@[i].0@, l.localized_content@[i].1@),
                ),
            },
        }
    }
}

/// The first entry for `key` among loaded files.
pub open spec fn lookup_loaded(files: Seq<(FileKey, LoadedModel)>, key: FileKey) -> Option<LoadedModel>
    decreases files.len(),
{
    if files.len() == 0 {
        None
    } else if files[0].0 == key {
        Some(files[0].1)
    } else {
        lookup_loaded(files.subrange(1, files.len() as int), key)
    }
}

pub open spec fn loaded_views(files: Seq<(FileToLoad, LoadedFile)>) -> Seq<(FileKey, LoadedModel)> {
    Seq::new(files.len(), |i: int| (files[i].0@, files[i].1@))
}

pub fn find_loaded<'a>(files: &'a Vec<(FileToLoad, LoadedFile)>, key: &FileToLoad) -> (r: Option<&'a LoadedFile>)
    ensures
        match r {
            Some(l) => lookup_loaded(loaded_views(files@), key@) == Some(l@),
            None => lookup_loaded(loaded_views(files@), key@) is None,
        },
{
    let ghost all = loaded_views(files@);
    let mut i: usize = 0;
    assert(all.subrange(0, all.len() as int) =~= all);
    while i < files.len()
        invariant
            i <= files.len(),
            all == loaded_views(files@),
            lookup_loaded(all, key@) == lookup_loaded(all.subrange(i as int, all.len() as int), key@),
        decreases files.len() - i,
    {
        let ghost rest = all.subrange(i as int, all.len() as int);
        assert(rest.subrange(1, rest.len() as int) =~= all.subrange(i + 1, all.len() as int));
        if files[i].0 == *key {
            return Some(&files[i].1);
        }
        i += 1;
    }
    None
}

/// The cache after offering it `content` for `key`: a key read once keeps
/// its first content.
pub open spec fn cache_store(cache: Seq<(FileKey, LoadedModel)>, key: FileKey, content: LoadedModel) -> Seq<(FileKey, LoadedModel)> {
    if lookup_loaded(cache, key) is Some {
        cache
    } else {
        cache.push((key, content))
    }
}

pub proof fn lemma_lookup_push(cache: Seq<(FileKey, LoadedModel)>, entry: (FileKey, LoadedModel), key: FileKey)
    ensures
        lookup_loaded(cache.push(entry), key) == (if lookup_loaded(cache, key) is Some {
            lookup_loaded(cache, key)
        } else if entry.0 == key {
            Some(entry.1)
        } else {
            None
        }),
    decreases cache.len(),
{
    let c = cache.push(entry);
    reveal_with_fuel(lookup_loaded, 2);
    if cache.len() > 0 {
        assert(c[0] == cache[0]);
        if cache[0].0 != key {
            assert(c.subrange(1, c.len() as int) =~= cache.subrange(1, cache.len() as int).push(entry));
            lemma_lookup_push(cache.subrange(1, cache.len() as int), entry, key);
        }
    } else {
        assert(c.subrange(1, c.len() as int) =~= Seq::<(FileKey, LoadedModel)>::empty());
    }
}

/// Files already read, each under the key it was asked for; shared by the
/// documents of one run so that no file is read twice.
#[derive(Clone, Debug)]
pub struct FileCache {
    pub entries: Vec<(FileToLoad, LoadedFile)>,
}

impl View for FileCache {
    type V = Seq<(FileKey, LoadedModel)>;

    open spec fn view(&self) -> Seq<(FileKey, LoadedModel)> {
        loaded_views(self.entries@)
    }
}

impl FileCache {
    pub fn new() -> (r: Self)
        ensures
            r@ == Seq::<(FileKey, LoadedModel)>::empty(),
    {
        let r = FileCache { entries: Vec::new() };
        assert(r@ =~= Seq::<(FileKey, LoadedModel)>::empty());
        r
    }

    pub fn get(&self, key: &FileToLoad) -> (r: Option<&LoadedFile>)
        ensures
            match r {
                Some(l) => lookup_loaded(self@, key@) == Some(l@),
                None => lookup_loaded(self@, key@) is None,
            },
    {
        find_loaded(&self.entries, key)
    }

    /// Keeps `content` for `key` unless the key was read before.
    pub fn store(&mut self, key: FileToLoad, content: LoadedFile)
        ensures
            final(self)@ == cache_store(old(self)@, key@, content@),
    {
        if find_loaded(&self.entries, &key).is_none() {
            let ghost entry = (key@, content@);
            self.entries.push((key, content));
            assert(self@ =~= old(self)@.push(entry));
        }
    }

    /// The files of `wanted` that are not cached yet, each once, in the order
    /// first asked for.
    pub fn to_read(&self, wanted: &Vec<FileToLoad>) -> (r: Vec<FileToLoad>)
        ensures
            crate::loading::file_views(r@).no_duplicates(),
            forall|k: FileKey|
                crate::loading::file_views(r@).contains(k) <==> (crate::loading::file_views(wanted@).contains(k)
                    && lookup_loaded(self@, k) is None),
    {
        let ghost w = crate::loading::file_views(wanted@);
        let mut r: Vec<FileToLoad> = Vec::new();
        let mut i: usize = 0;
        while i < wanted.len()
            invariant
                i <= wanted.len(),
                w == crate::loading::file_views(wanted@),
                crate::loading::file_views(r@).no_duplicates(),
                forall|k: FileKey|
                    crate::loading::file_views(r@).contains(k) <==> (w.subrange(0, i as int).contains(k)
                        && lookup_loaded(self@, k) is None),
            decreases wanted.len() - i,
        {
            let ghost before = crate::loading::file_views(r@);
            let mut seen = false;
            let mut k: usize = 0;
            while k < r.len()
                invariant
                    k <= r.len(),
                    i < wanted.len(),
                    seen == exists|j: int| 0 <= j < k && r@[j]@ == wanted@[i as int]@,
                decreases r.len() - k,
            {
                if r[k] == wanted[i] {
                    seen = true;
                }
                k += 1;
            }
            let cached = self.get(&wanted[i]).is_some();
            if !seen && !cached {
                r.push(wanted[i].copy());
                assert(crate::loading::file_views(r@) =~= before.push(w[i as int]));
            }
            let ghost now = crate::loading::file_views(r@);
            let ghost upto = w.subrange(0, i + 1);
            let ghost prev = w.subrange(0, i as int);
            assert(upto =~= prev.push(w[i as int]));
            assert forall|key: FileKey| now.contains(key) implies (upto.contains(key) && lookup_loaded(self@, key) is None) by {
                if before.contains(key) {
                    let j = choose|j: int| 0 <= j < prev.len() && prev[j] == key;
                    assert(upto[j] == key);
                } else {
                    assert(!seen && !cached);
                    let j = choose|j: int| 0 <= j < now.len() && now[j] == key;
                    assert(j == before.len());
                    assert(key == w[i as int]);
                    assert(upto[i as int] == key);
                }
            }
            assert forall|key: FileKey| (upto.contains(key) && lookup_loaded(self@, key) is None) implies now.contains(key) by {
                if key == w[i as int] {
                    if seen {
                        let j = choose|j: int| 0 <= j < r.len() && r@[j]@ == wanted@[i as int]@;
                        assert(now[j] == key);
                    } else {
                        assert(now[before.len() as int] == key);
                    }
                } else {
                    let j = choose|j: int| 0 <= j < upto.len() && upto[j] == key;
                    assert(prev[j] == key);
                    assert(before.contains(key));
                    let m = choose|m: int| 0 <= m < before.len() && before[m] == key;
                    assert(now[m] == key);
                }
            }
            i += 1;
        }
        assert(w.subrange(0, wanted.len() as int) =~= w);
        r
    }
}

/// A file asked for twice is read once: the second offer leaves the content
/// of the first, which every later lookup returns.
pub proof fn lemma_cache_reads_once(cache: Seq<(FileKey, LoadedModel)>, key: FileKey, first: LoadedModel, second: LoadedModel)
    ensures
        cache_store(cache_store(cache, key, first), key, second) == cache_store(cache, key, first),
        lookup_loaded(cache_store(cache, key, first), key) is Some,
        lookup_loaded(cache, key) is None ==> lookup_loaded(cache_store(cache, key, first), key) == Some(first),
{
    lemma_lookup_push(cache, (key, first), key);
}

} // verus!
