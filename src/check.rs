use vstd::prelude::*;

verus! {

/// The place of a diagnostic inside a document: the segments from the root
/// down, and an optional final segment naming the entry itself.
#[derive(Clone, Debug)]
pub struct InputCheckPath {
    pub parts: Vec<String>,
    pub last_part: Option<String>,
}

pub struct PathView {
    pub parts: Seq<Seq<char>>,
    pub last: Option<Seq<char>>,
}

pub open spec fn string_views(v: Seq<String>) -> Seq<Seq<char>> {
    Seq::new(v.len(), |i: int| v[i]@)
}

pub open spec fn option_view(o: Option<String>) -> Option<Seq<char>> {
    match o {
        Some(s) => Some(s@),
        None => None,
    }
}

pub open spec fn prepend(p: PathView, seg: Seq<char>) -> PathView {
    PathView { parts: seq![seg] + p.parts, last: p.last }
}

/// The segments joined by dots, the final segment included.
pub open spec fn render_path(p: PathView) -> Seq<char> {
    let all = match p.last {
        Some(l) => p.parts.push(l),
        None => p.parts,
    };
    join_dotted(all)
}

pub open spec fn join_dotted(s: Seq<Seq<char>>) -> Seq<char>
    decreases s.len(),
{
    if s.len() == 0 {
        Seq::empty()
    } else if s.len() == 1 {
        s[0]
    } else {
        join_dotted(s.drop_last()) + seq!['.'] + s.last()
    }
}

pub fn copy_strings(v: &Vec<String>) -> (r: Vec<String>)
    ensures
        string_views(r@) == string_views(v@),
{
    let mut r: Vec<String> = Vec::new();
    let mut i: usize = 0;
    while i < v.len()
        invariant
            i <= v.len(),
            r@.len() == i,
            forall|j: int| 0 <= j < i ==> r@[j]@ == v@[j]@,
        decreases v.len() - i,
    {
        r.push(v[i].clone());
        i += 1;
    }
    assert(string_views(r@) =~= string_views(v@));
    r
}

pub fn copy_option_string(o: &Option<String>) -> (r: Option<String>)
    ensures
        option_view(r) == option_view(*o),
{
    match o {
        Some(s) => Some(s.clone()),
        None => None,
    }
}

impl View for InputCheckPath {
    type V = PathView;

    open spec fn view(&self) -> PathView {
        PathView { parts: string_views(self.parts@), last: option_view(self.last_part) }
    }
}

impl InputCheckPath {
    pub fn with_last(os: Option<String>) -> (r: Self)
        ensures
            r@.parts.len() == 0,
            r@.last == option_view(os),
    {
        InputCheckPath { parts: Vec::new(), last_part: os }
    }

    pub fn without_last() -> (r: Self)
        ensures
            r@.parts.len() == 0,
            r@.last is None,
    {
        Self::with_last(None)
    }

    /// Puts `s` in front: paths grow from the innermost segment outwards.
    pub fn add(&mut self, s: String)
        ensures
            final(self)@ == prepend(old(self)@, s@),
    {
        self.parts.insert(0, s);
        assert(string_views(self.parts@) =~= seq![s@] + string_views(old(self).parts@));
    }

    pub fn copy(&self) -> (r: Self)
        ensures
            r@ == self@,
    {
        InputCheckPath { parts: copy_strings(&self.parts), last_part: copy_option_string(&self.last_part) }
    }

    /// The dotted form of the path, such as `question.parts.2.marks`.
    pub fn render(&self) -> (r: String)
        ensures
            r@ == render_path(self@),
    {
        let mut all = copy_strings(&self.parts);
        match &self.last_part {
            Some(l) => all.push(l.clone()),
            None => {},
        }
        assert(string_views(all@) =~= (match self@.last {
            Some(l) => self@.parts.push(l),
            None => self@.parts,
        }));
        let mut r = String::new();
        let mut i: usize = 0;
        while i < all.len()
            invariant
                i <= all.len(),
                r@ == join_dotted(string_views(all@).subrange(0, i as int)),
            decreases all.len() - i,
        {
            let ghost before = string_views(all@).subrange(0, i as int);
            let ghost after = string_views(all@).subrange(0, i + 1);
            assert(after.drop_last() =~= before);
            if i == 0 {
                r = all[i].clone();
            } else {
                r.append(".");
                proof { reveal_strlit("."); }
                r.append(all[i].as_str());
            }
            i += 1;
        }
        assert(string_views(all@).subrange(0, all.len() as int) =~= string_views(all@));
        r
    }
}

#[derive(Clone, Debug)]
pub struct InputCheckMissingData {
    pub path: InputCheckPath,
}

impl InputCheckMissingData {
    pub fn copy(&self) -> (r: Self)
        ensures
            r.path@ == self.path@,
    {
        InputCheckMissingData { path: self.path.copy() }
    }

    pub fn render(&self) -> (r: String)
        ensures
            r@ == render_path(self.path@),
    {
        self.path.render()
    }
}

/// A value that was present but could not be read as what its place asks for.
#[derive(Clone, Debug)]
pub struct InputCheckInvalidYamlData {
    pub path: InputCheckPath,
    pub data: String,
    pub error: Option<String>,
}

pub struct InvalidView {
    pub path: PathView,
    pub data: Seq<char>,
    pub error: Option<Seq<char>>,
}

impl View for InputCheckInvalidYamlData {
    type V = InvalidView;

    open spec fn view(&self) -> InvalidView {
        InvalidView { path: self.path@, data: self.data@, error: option_view(self.error) }
    }
}

impl InputCheckInvalidYamlData {
    pub fn copy(&self) -> (r: Self)
        ensures
            r@ == self@,
    {
        InputCheckInvalidYamlData {
            path: self.path.copy(),
            data: self.data.clone(),
            error: copy_option_string(&self.error),
        }
    }
}

/// Every problem found in a document, each with its path: missing values,
/// invalid raw values, and free-form messages.
#[derive(Clone, Debug)]
pub struct InputCheckResult {
    pub missing_values: Vec<InputCheckMissingData>,
    pub invalid_yaml_values: Vec<InputCheckInvalidYamlData>,
    pub error_messages: Vec<String>,
}

pub struct CheckView {
    pub missing: Seq<PathView>,
    pub invalid: Seq<InvalidView>,
    pub messages: Seq<Seq<char>>,
}

pub open spec fn check_empty() -> CheckView {
    CheckView { missing: Seq::empty(), invalid: Seq::empty(), messages: Seq::empty() }
}

pub open spec fn check_is_empty(c: CheckView) -> bool {
    c.missing.len() == 0 && c.invalid.len() == 0 && c.messages.len() == 0
}

pub open spec fn check_union(a: CheckView, b: CheckView) -> CheckView {
    CheckView {
        missing: a.missing + b.missing,
        invalid: a.invalid + b.invalid,
        messages: a.messages + b.messages,
    }
}

pub open spec fn check_extend(c: CheckView, seg: Seq<char>) -> CheckView {
    CheckView {
        missing: Seq::new(c.missing.len(), |i: int| prepend(c.missing[i], seg)),
        invalid: Seq::new(
            c.invalid.len(),
            |i: int| InvalidView { path: prepend(c.invalid[i].path, seg), ..c.invalid[i] },
        ),
        messages: c.messages,
    }
}

pub open spec fn missing_here(last: Option<Seq<char>>) -> CheckView {
    CheckView {
        missing: seq![PathView { parts: Seq::empty(), last }],
        invalid: Seq::empty(),
        messages: Seq::empty(),
    }
}

pub open spec fn invalid_here(data: Seq<char>, error: Option<Seq<char>>) -> CheckView {
    CheckView {
        missing: Seq::empty(),
        invalid: seq![InvalidView { path: PathView { parts: Seq::empty(), last: None }, data, error }],
        messages: Seq::empty(),
    }
}

pub open spec fn message_here(m: Seq<char>) -> CheckView {
    CheckView { missing: Seq::empty(), invalid: Seq::empty(), messages: seq![m] }
}

impl View for InputCheckResult {
    type V = CheckView;

    open spec fn view(&self) -> CheckView {
        CheckView {
            missing: Seq::new(self.missing_values@.len(), |i: int| self.missing_values@[i].path@),
            invalid: Seq::new(self.invalid_yaml_values@.len(), |i: int| self.invalid_yaml_values@[i]@),
            messages: string_views(self.error_messages@),
        }
    }
}

impl InputCheckResult {
    pub fn from_missing(os: Option<String>) -> (r: InputCheckResult)
        ensures
            r@ == missing_here(option_view(os)),
    {
        let r = InputCheckResult {
            missing_values: vec![InputCheckMissingData { path: InputCheckPath::with_last(os) }],
            invalid_yaml_values: Vec::new(),
            error_messages: Vec::new(),
        };
        assert(r@.missing[0].parts =~= Seq::<Seq<char>>::empty());
        assert(r@.missing =~= missing_here(option_view(os)).missing);
        assert(r@.invalid =~= Seq::<InvalidView>::empty());
        assert(r@.messages =~= Seq::<Seq<char>>::empty());
        r
    }

    pub fn from_invalid(data: String, error: Option<String>) -> (r: InputCheckResult)
        ensures
            r@ == invalid_here(data@, option_view(error)),
    {
        let r = InputCheckResult {
            missing_values: Vec::new(),
            invalid_yaml_values: vec![
                InputCheckInvalidYamlData { path: InputCheckPath::without_last(), data, error },
            ],
            error_messages: Vec::new(),
        };
        assert(r@.missing =~= Seq::<PathView>::empty());
        assert(r@.invalid[0].path.parts =~= Seq::<Seq<char>>::empty());
        assert(r@.invalid[0].path =~= invalid_here(data@, option_view(error)).invalid[0].path);
        assert(r@.invalid =~= invalid_here(data@, option_view(error)).invalid);
        assert(r@.messages =~= Seq::<Seq<char>>::empty());
        r
    }

    pub fn from_error_message(s: String) -> (r: Self)
        ensures
            r@ == message_here(s@),
    {
        let r = InputCheckResult {
            missing_values: Vec::new(),
            invalid_yaml_values: Vec::new(),
            error_messages: vec![s],
        };
        assert(r@.missing =~= Seq::<PathView>::empty());
        assert(r@.invalid =~= Seq::<InvalidView>::empty());
        assert(r@.messages =~= seq![s@]);
        r
    }

    pub fn empty() -> (r: InputCheckResult)
        ensures
            r@ == check_empty(),
    {
        let r = InputCheckResult {
            missing_values: Vec::new(),
            invalid_yaml_values: Vec::new(),
            error_messages: Vec::new(),
        };
        assert(r@.missing =~= Seq::<PathView>::empty());
        assert(r@.invalid =~= Seq::<InvalidView>::empty());
        assert(r@.messages =~= Seq::<Seq<char>>::empty());
        r
    }

    pub fn is_empty(&self) -> (r: bool)
        ensures
            r == check_is_empty(self@),
    {
        self.missing_values.len() == 0 && self.invalid_yaml_values.len() == 0
            && self.error_messages.len() == 0
    }

    /// Prefixes the path of every missing and invalid entry with `s`.
    pub fn extend_path(&mut self, s: String)
        ensures
            final(self)@ == check_extend(old(self)@, s@),
    {
        let ghost before = self@;
        let mut missing: Vec<InputCheckMissingData> = Vec::new();
        let mut i: usize = 0;
        while i < self.missing_values.len()
            invariant
                i <= self.missing_values.len(),
                self@ == before,
                missing@.len() == i,
                forall|j: int| 0 <= j < i ==> (#[trigger] missing@[j]).path@ == prepend(before.missing[j], s@),
            decreases self.missing_values.len() - i,
        {
            let mut m = self.missing_values[i].copy();
            m.path.add(s.clone());
            missing.push(m);
            i += 1;
        }
        let mut invalid: Vec<InputCheckInvalidYamlData> = Vec::new();
        let mut i: usize = 0;
        while i < self.invalid_yaml_values.len()
            invariant
                i <= self.invalid_yaml_values.len(),
                self@ == before,
                invalid@.len() == i,
                forall|j: int| 0 <= j < i ==> (#[trigger] invalid@[j])@ == (InvalidView { path: prepend(before.invalid[j].path, s@), ..before.invalid[j] }),
            decreases self.invalid_yaml_values.len() - i,
        {
            let mut m = self.invalid_yaml_values[i].copy();
            m.path.add(s.clone());
            invalid.push(m);
            i += 1;
        }
        self.missing_values = missing;
        self.invalid_yaml_values = invalid;
        assert(self@.missing =~= check_extend(before, s@).missing);
        assert(self@.invalid =~= check_extend(before, s@).invalid);
    }

    /// Appends every entry of `other`, keeping duplicates.
    pub fn union(&mut self, other: &Self)
        ensures
            final(self)@ == check_union(old(self)@, other@),
    {
        let ghost before = self@;
        let ghost n = self.missing_values@.len();
        let mut i: usize = 0;
        while i < other.missing_values.len()
            invariant
                i <= other.missing_values.len(),
                self.invalid_yaml_values == old(self).invalid_yaml_values,
                self.error_messages == old(self).error_messages,
                self.missing_values@.len() == n + i,
                forall|j: int| 0 <= j < n ==> (#[trigger] self.missing_values@[j]).path@ == before.missing[j],
                forall|j: int| 0 <= j < i ==> self.missing_values@[n + j].path@ == other@.missing[j],
            decreases other.missing_values.len() - i,
        {
            self.missing_values.push(other.missing_values[i].copy());
            i += 1;
        }
        assert(self@.missing =~= before.missing + other@.missing);
        let ghost n = self.invalid_yaml_values@.len();
        let mut i: usize = 0;
        while i < other.invalid_yaml_values.len()
            invariant
                i <= other.invalid_yaml_values.len(),
                self.error_messages == old(self).error_messages,
                self@.missing =~= before.missing + other@.missing,
                self.invalid_yaml_values@.len() == n + i,
                forall|j: int| 0 <= j < n ==> (#[trigger] self.invalid_yaml_values@[j])@ == before.invalid[j],
                forall|j: int| 0 <= j < i ==> self.invalid_yaml_values@[n + j]@ == other@.invalid[j],
            decreases other.invalid_yaml_values.len() - i,
        {
            self.invalid_yaml_values.push(other.invalid_yaml_values[i].copy());
            i += 1;
        }
        assert(self@.invalid =~= before.invalid + other@.invalid);
        let ghost n = self.error_messages@.len();
        let mut i: usize = 0;
        while i < other.error_messages.len()
            invariant
                i <= other.error_messages.len(),
                self@.missing =~= before.missing + other@.missing,
                self@.invalid =~= before.invalid + other@.invalid,
                self.error_messages@.len() == n + i,
                forall|j: int| 0 <= j < n ==> (#[trigger] self.error_messages@[j])@ == before.messages[j],
                forall|j: int| 0 <= j < i ==> self.error_messages@[n + j]@ == other@.messages[j],
            decreases other.error_messages.len() - i,
        {
            self.error_messages.push(other.error_messages[i].clone());
            i += 1;
        }
        assert(self@.messages =~= before.messages + other@.messages);
    }

    pub fn copy(&self) -> (r: Self)
        ensures
            r@ == self@,
    {
        let mut r = InputCheckResult::empty();
        r.union(self);
        assert(r@.missing =~= self@.missing);
        assert(r@.invalid =~= self@.invalid);
        assert(r@.messages =~= self@.messages);
        r
    }

    pub fn missing_fields(&self) -> (r: Vec<InputCheckMissingData>)
        ensures
            r@.len() == self@.missing.len(),
            forall|i: int| 0 <= i < r@.len() ==> (#[trigger] r@[i]).path@ == self@.missing[i],
    {
        let c = self.copy();
        c.missing_values
    }

    pub fn invalid_yaml_fields(&self) -> (r: Vec<InputCheckInvalidYamlData>)
        ensures
            r@.len() == self@.invalid.len(),
            forall|i: int| 0 <= i < r@.len() ==> (#[trigger] r@[i])@ == self@.invalid[i],
    {
        let c = self.copy();
        c.invalid_yaml_values
    }

    pub fn error_messages(&self) -> (r: Vec<String>)
        ensures
            string_views(r@) == self@.messages,
    {
        copy_strings(&self.error_messages)
    }
}

} // verus!
