use vstd::prelude::*;
use vstd::string::*;
use crate::check::{InputCheckPath, PathView, copy_strings, option_view, prepend, render_path, string_views};
use crate::resolve::{decimal, index_text};
use crate::tree::{Doc, ObjectKind, Tree, lemma_tree_child};
use crate::value::Noneable;

verus! {

/// A path inside a resolved document, reported when it cannot be brought
/// into a given locale.
#[derive(Clone, Debug)]
pub struct RumbasCheckPath {
    pub parts: Vec<String>,
    pub last_part: Option<String>,
}

impl View for RumbasCheckPath {
    type V = PathView;

    open spec fn view(&self) -> PathView {
        PathView { parts: string_views(self.parts@), last: option_view(self.last_part) }
    }
}

impl RumbasCheckPath {
    pub fn with_last(os: Option<String>) -> (r: Self)
        ensures
            r@.parts.len() == 0,
            r@.last == option_view(os),
    {
        RumbasCheckPath { parts: Vec::new(), last_part: os }
    }

    pub fn without_last() -> (r: Self)
        ensures
            r@.parts.len() == 0,
            r@.last is None,
    {
        Self::with_last(None)
    }

    /// Puts `s` in front: paths grow from the innermost segment outwards.
    pub fn add(&mut self, s: String)
        ensures
            final(self)@ == prepend(old(self)@, s@),
    {
        self.parts.insert(0, s);
        assert(string_views(self.parts@) =~= seq![s@] + string_views(old(self).parts@));
    }

    /// The dotted form of the path, such as `0.expression.en`.
    pub fn render(&self) -> (r: String)
        ensures
            r@ == render_path(self@),
    {
        let p = InputCheckPath {
            parts: copy_strings(&self.parts),
            last_part: crate::check::copy_option_string(&self.last_part),
        };
        p.render()
    }

    pub fn copy(&self) -> (r: Self)
        ensures
            r@ == self@,
    {
        RumbasCheckPath {
            parts: copy_strings(&self.parts),
            last_part: crate::check::copy_option_string(&self.last_part),
        }
    }
}

#[derive(Clone, Debug)]
pub struct RumbasCheckMissingData {
    pub path: RumbasCheckPath,
}

/// The places of a resolved document that have no text for a locale.
#[derive(Clone, Debug)]
pub struct RumbasCheckResult {
    pub missing_values: Vec<RumbasCheckMissingData>,
}

impl View for RumbasCheckResult {
    type V = Seq<PathView>;

    open spec fn view(&self) -> Seq<PathView> {
        Seq::new(self.missing_values@.len(), |i: int| self.missing_values@[i].path@)
    }
}

impl RumbasCheckResult {
    pub fn empty() -> (r: Self)
        ensures
            r@ == Seq::<PathView>::empty(),
    {
        let r = RumbasCheckResult { missing_values: Vec::new() };
        assert(r@ =~= Seq::<PathView>::empty());
        r
    }

    pub fn from_missing(os: Option<String>) -> (r: Self)
        ensures
            r@ == seq![PathView { parts: Seq::empty(), last: option_view(os) }],
    {
        let r = RumbasCheckResult {
            missing_values: vec![RumbasCheckMissingData { path: RumbasCheckPath::with_last(os) }],
        };
        assert(r@[0].parts =~= Seq::<Seq<char>>::empty());
        assert(r@ =~= seq![PathView { parts: Seq::empty(), last: option_view(os) }]);
        r
    }

    pub fn is_empty(&self) -> (r: bool)
        ensures
            r == (self@.len() == 0),
    {
        self.missing_values.len() == 0
    }

    pub fn extend_path(&mut self, s: String)
        ensures
            final(self)@ == extend_all(old(self)@, s@),
    {
        let ghost before = self@;
        let mut out: Vec<RumbasCheckMissingData> = Vec::new();
        let mut i: usize = 0;
        while i < self.missing_values.len()
            invariant
                i <= self.missing_values.len(),
                self@ == before,
                out@.len() == i,
                forall|j: int| 0 <= j < i ==> (#[trigger] out@[j]).path@ == prepend(before[j], s@),
            decreases self.missing_values.len() - i,
        {
            let mut p = self.missing_values[i].path.copy();
            p.add(s.clone());
            out.push(RumbasCheckMissingData { path: p });
            i += 1;
        }
        self.missing_values = out;
        assert(self@ =~= extend_all(before, s@));
    }

    pub fn union(&mut self, other: &Self)
        ensures
            final(self)@ == old(self)@ + other@,
    {
        let ghost n = self.missing_values@.len();
        let ghost before = self@;
        let mut i: usize = 0;
        while i < other.missing_values.len()
            invariant
                i <= other.missing_values.len(),
                self.missing_values@.len() == n + i,
                forall|j: int| 0 <= j < n ==> (#[trigger] self.missing_values@[j]).path@ == before[j],
                forall|j: int| 0 <= j < i ==> self.missing_values@[n + j].path@ == other@[j],
            decreases other.missing_values.len() - i,
        {
            self.missing_values.push(RumbasCheckMissingData { path: other.missing_values[i].path.copy() });
            i += 1;
        }
        assert(self@ =~= before + other@);
    }
}

/// A text given without a locale, per locale, or both.
#[derive(Clone, Debug)]
pub struct TranslatableString {
    pub content: Option<String>,
    pub translations: Vec<(String, String)>,
}

pub struct TranslatableView {
    pub content: Option<Seq<char>>,
    pub translations: Seq<(Seq<char>, Seq<char>)>,
}

impl View for TranslatableString {
    type V = TranslatableView;

    open spec fn view(&self) -> TranslatableView {
        TranslatableView {
            content: option_view(self.content),
            translations: Seq::new(self.translations@.len(), |i: int| (self.translations@[i].0@, self.translations@[i].1@)),
        }
    }
}

pub open spec fn translation_of(ts: Seq<(Seq<char>, Seq<char>)>, locale: Seq<char>) -> Option<Seq<char>>
    decreases ts.len(),
{
    if ts.len() == 0 {
        None
    } else if ts[0].0 == locale {
        Some(ts[0].1)
    } else {
        translation_of(ts.subrange(1, ts.len() as int), locale)
    }
}

/// The text for a locale: its translation, or else the text given without one.
pub open spec fn localized(t: TranslatableView, locale: Seq<char>) -> Option<Seq<char>> {
    match translation_of(t.translations, locale) {
        Some(s) => Some(s),
        None => t.content,
    }
}

impl TranslatableString {
    pub fn copy(&self) -> (r: Self)
        ensures
            r@ == self@,
    {
        let mut translations: Vec<(String, String)> = Vec::new();
        let mut i: usize = 0;
        while i < self.translations.len()
            invariant
                i <= self.translations.len(),
                translations@.len() == i,
                forall|j: int| 0 <= j < i ==> (#[trigger] translations@[j]).0@ == self.translations@[j].0@
                    && translations@[j].1@ == self.translations@[j].1@,
            decreases self.translations.len() - i,
        {
            translations.push((self.translations[i].0.clone(), self.translations[i].1.clone()));
            i += 1;
        }
        let r = TranslatableString { content: crate::check::copy_option_string(&self.content), translations };
        assert(r@.translations =~= self@.translations);
        r
    }

    pub fn localize(&self, locale: &String) -> (r: Option<String>)
        ensures
            option_view(r) == localized(self@, locale@),
    {
        let ghost all = self@.translations;
        let mut i: usize = 0;
        assert(all.subrange(0, all.len() as int) =~= all);
        while i < self.translations.len()
            invariant
                i <= self.translations.len(),
                all == self@.translations,
                translation_of(all, locale@) == translation_of(all.subrange(i as int, all.len() as int), locale@),
            decreases self.translations.len() - i,
        {
            let ghost rest = all.subrange(i as int, all.len() as int);
            assert(rest.subrange(1, rest.len() as int) =~= all.subrange(i + 1, all.len() as int));
            if self.translations[i].0 == *locale {
                return Some(self.translations[i].1.clone());
            }
            i += 1;
        }
        crate::check::copy_option_string(&self.content)
    }

    /// Reports this text, with the locale as the last segment, when it has
    /// no text for `locale`.
    pub fn check(&self, locale: &String) -> (r: RumbasCheckResult)
        ensures
            r@ == (if localized(self@, locale@) is Some {
                Seq::<PathView>::empty()
            } else {
                seq![PathView { parts: Seq::empty(), last: Some(locale@) }]
            }),
    {
        match self.localize(locale) {
            Some(_) => RumbasCheckResult::empty(),
            None => RumbasCheckResult::from_missing(Some(locale.clone())),
        }
    }
}

/// A named step of a custom marking algorithm.
#[derive(Clone, Debug)]
pub struct JMENote {
    pub name: String,
    pub description: Noneable<String>,
    pub expression: TranslatableString,
}

/// The notes of a marking algorithm, in order.
#[derive(Clone, Debug)]
pub struct JMENotes(pub Vec<JMENote>);

/// A note as `name(description):expression`, the parenthesised part only
/// where there is a description.
pub open spec fn note_text(name: Seq<char>, description: Option<Seq<char>>, expression: Seq<char>) -> Seq<char> {
    let d = match description {
        Some(d) => seq!['('] + d + seq![')'],
        None => Seq::empty(),
    };
    name + d + seq![':'] + expression
}

pub open spec fn description_view(d: Noneable<String>) -> Option<Seq<char>> {
    match d {
        Noneable::Nothing => None,
        Noneable::NotNone(s) => Some(s@),
    }
}

/// The notes whose expression has text for `locale`, as text.
pub open spec fn note_texts(notes: Seq<JMENote>, locale: Seq<char>) -> Seq<Seq<char>> {
    Seq::new(
        notes.len(),
        |i: int| note_text(notes[i].name@, description_view(notes[i].description), localized(notes[i].expression@, locale)->Some_0),
    )
}

/// Texts joined by a blank line.
pub open spec fn join_blank_line(s: Seq<Seq<char>>) -> Seq<char>
    decreases s.len(),
{
    if s.len() == 0 {
        Seq::empty()
    } else if s.len() == 1 {
        s[0]
    } else {
        join_blank_line(s.drop_last()) + seq!['\n', '\n'] + s.last()
    }
}

pub open spec fn notes_missing(notes: Seq<JMENote>, locale: Seq<char>) -> Seq<PathView>
    decreases notes.len(),
{
    if notes.len() == 0 {
        Seq::empty()
    } else {
        let last = notes.len() - 1;
        let here = if localized(notes[last].expression@, locale) is Some {
            Seq::<PathView>::empty()
        } else {
            seq![PathView { parts: seq![crate::resolve::decimal(last as nat), "expression"@], last: Some(locale) }]
        };
        notes_missing(notes.subrange(0, last), locale) + here
    }
}

impl JMENote {
    fn text(&self, locale: &String) -> (r: String)
        requires
            localized(self.expression@, locale@) is Some,
        ensures
            r@ == note_text(self.name@, description_view(self.description), localized(self.expression@, locale@)->Some_0),
    {
        let mut r = self.name.clone();
        match &self.description {
            Noneable::NotNone(d) => {
                r.append("(");
                r.append(d.as_str());
                r.append(")");
            },
            Noneable::Nothing => {},
        }
        r.append(":");
        let e = match self.expression.localize(locale) {
            Some(e) => e,
            None => String::new(),
        };
        r.append(e.as_str());
        proof {
            reveal_strlit("(");
            reveal_strlit(")");
            reveal_strlit(":");
        }
        r
    }
}

impl JMENotes {
    /// Every note whose expression has no text for `locale`, at
    /// `<index>.expression.<locale>`.
    pub fn check(&self, locale: &String) -> (r: RumbasCheckResult)
        ensures
            r@ == notes_missing(self.0@, locale@),
    {
        let mut result = RumbasCheckResult::empty();
        let mut i: usize = 0;
        while i < self.0.len()
            invariant
                i <= self.0.len(),
                result@ == notes_missing(self.0@.subrange(0, i as int), locale@),
            decreases self.0.len() - i,
        {
            let mut c = self.0[i].expression.check(locale);
            let ghost c0 = c@;
            c.extend_path(String::from_str("expression"));
            proof { reveal_strlit("expression"); }
            let ghost c1 = c@;
            c.extend_path(crate::resolve::index_text(i));
            result.union(&c);
            let ghost notes = self.0@.subrange(0, i + 1);
            assert(notes.subrange(0, i as int) =~= self.0@.subrange(0, i as int));
            assert(notes[i as int] == self.0@[i as int]);
            proof {
                if c0.len() == 0 {
                    assert(c@ =~= Seq::<PathView>::empty());
                } else {
                    assert(c1[0].parts =~= seq!["expression"@]);
                    assert(c@[0].parts =~= seq![crate::resolve::decimal(i as nat), "expression"@]);
                    assert(c@ =~= seq![PathView { parts: seq![crate::resolve::decimal(i as nat), "expression"@], last: Some(locale@) }]);
                }
            }
            i += 1;
        }
        assert(self.0@.subrange(0, self.0@.len() as int) =~= self.0@);
        result
    }

    /// The notes as marking-algorithm text for `locale`, or every place that
    /// has no text for it.
    pub fn to_numbas_safe(&self, locale: &String) -> (r: Result<String, RumbasCheckResult>)
        ensures
            r is Ok <==> notes_missing(self.0@, locale@).len() == 0,
            r matches Ok(s) ==> s@ == join_blank_line(note_texts(self.0@, locale@)),
            r matches Err(c) ==> c@ == notes_missing(self.0@, locale@),
    {
        let check = self.check(locale);
        if !check.is_empty() {
            return Err(check);
        }
        proof { lemma_no_missing_localized(self.0@, locale@); }
        let ghost texts = note_texts(self.0@, locale@);
        let mut r = String::new();
        let mut i: usize = 0;
        while i < self.0.len()
            invariant
                i <= self.0.len(),
                texts == note_texts(self.0@, locale@),
                forall|j: int| 0 <= j < self.0@.len() ==> localized(#[trigger] self.0@[j].expression@, locale@) is Some,
                r@ == join_blank_line(texts.subrange(0, i as int)),
            decreases self.0.len() - i,
        {
            let t = self.0[i].text(locale);
            assert(texts.subrange(0, i + 1).drop_last() =~= texts.subrange(0, i as int));
            if i == 0 {
                r = t;
            } else {
                r.append("\n\n");
                proof { reveal_strlit("\n\n"); }
                r.append(t.as_str());
            }
            i += 1;
        }
        assert(texts.subrange(0, texts.len() as int) =~= texts);
        Ok(r)
    }
}

pub proof fn lemma_no_missing_localized(notes: Seq<JMENote>, locale: Seq<char>)
    requires
        notes_missing(notes, locale).len() == 0,
    ensures
        forall|j: int| 0 <= j < notes.len() ==> localized(#[trigger] notes[j].expression@, locale) is Some,
    decreases notes.len(),
{
    if notes.len() > 0 {
        let last = notes.len() - 1;
        let prefix = notes.subrange(0, last);
        lemma_no_missing_localized(prefix, locale);
        assert forall|j: int| 0 <= j < notes.len() implies localized(#[trigger] notes[j].expression@, locale) is Some by {
            if j < last {
                assert(prefix[j] == notes[j]);
            }
        }
    }
}

pub open spec fn extend_all(ps: Seq<PathView>, seg: Seq<char>) -> Seq<PathView> {
    Seq::new(ps.len(), |i: int| prepend(ps[i], seg))
}

pub open spec fn locale_missing_here(t: TranslatableView, locale: Seq<char>) -> Seq<PathView> {
    if localized(t, locale) is Some {
        Seq::empty()
    } else {
        seq![PathView { parts: Seq::empty(), last: Some(locale) }]
    }
}

/// The places of a resolved document whose text has no form for `locale`,
/// with the locale as the last segment of each path.
pub open spec fn locale_missing(d: Doc, locale: Seq<char>) -> Seq<PathView>
    decreases d,
{
    match d {
        Doc::Translated(t) => locale_missing_here(t, locale),
        Doc::List(s) => locale_missing_items(s, locale),
        Doc::Object(kind, fs) => locale_missing_fields(fs, kind is Dictionary, locale),
        _ => Seq::empty(),
    }
}

pub open spec fn locale_missing_items(s: Seq<Doc>, locale: Seq<char>) -> Seq<PathView>
    decreases s,
{
    if s.len() == 0 {
        Seq::empty()
    } else {
        locale_missing_items(s.subrange(0, s.len() - 1), locale)
            + extend_all(locale_missing(s[s.len() - 1], locale), decimal((s.len() - 1) as nat))
    }
}

pub open spec fn locale_missing_fields(fs: Seq<(Seq<char>, Doc)>, keyed: bool, locale: Seq<char>) -> Seq<PathView>
    decreases fs,
{
    if fs.len() == 0 {
        Seq::empty()
    } else {
        let last = fs.len() - 1;
        let segment = if keyed { decimal(last as nat) } else { fs[last].0 };
        locale_missing_fields(fs.subrange(0, last), keyed, locale)
            + extend_all(locale_missing(fs[last].1, locale), segment)
    }
}

/// The document with each text in its form for `locale`; a text without
/// one becomes empty.
pub open spec fn in_locale(d: Doc, locale: Seq<char>) -> Doc
    decreases d,
{
    match d {
        Doc::Translated(t) => Doc::Text(
            match localized(t, locale) {
                Some(s) => s,
                None => Seq::empty(),
            },
        ),
        Doc::List(s) => Doc::List(
            Seq::new(s.len(), |i: int| if 0 <= i < s.len() { in_locale(s[i], locale) } else { Doc::Bool(false) }),
        ),
        Doc::Object(kind, fs) => Doc::Object(
            kind,
            Seq::new(
                fs.len(),
                |i: int|
                    if 0 <= i < fs.len() {
                        (fs[i].0, in_locale(fs[i].1, locale))
                    } else {
                        (Seq::empty(), Doc::Bool(false))
                    },
            ),
        ),
        _ => d,
    }
}

/// A document with no text left that has forms per locale.
pub open spec fn single_locale(d: Doc) -> bool
    decreases d,
{
    match d {
        Doc::Translated(_) => false,
        Doc::List(s) => forall|i: int| 0 <= i < s.len() ==> single_locale(#[trigger] s[i]),
        Doc::Object(_, fs) => forall|i: int| 0 <= i < fs.len() ==> single_locale(#[trigger] fs[i].1),
        _ => true,
    }
}

/// Bringing a document into a locale leaves one form of every text.
pub proof fn lemma_in_locale_single(d: Doc, locale: Seq<char>)
    ensures
        single_locale(in_locale(d, locale)),
    decreases d,
{
    match d {
        Doc::List(s) => {
            let r = in_locale(d, locale)->List_0;
            assert forall|i: int| 0 <= i < r.len() implies single_locale(#[trigger] r[i]) by {
                lemma_in_locale_single(s[i], locale);
            }
        },
        Doc::Object(_, fs) => {
            let r = in_locale(d, locale)->Object_1;
            assert forall|i: int| 0 <= i < r.len() implies single_locale(#[trigger] r[i].1) by {
                lemma_in_locale_single(fs[i].1, locale);
            }
        },
        _ => {},
    }
}

impl Tree {
    /// Every text of the document that has no form for `locale`.
    pub fn check(&self, locale: &String) -> (r: RumbasCheckResult)
        ensures
            r@ == locale_missing(self@, locale@),
        decreases self,
    {
        match self {
            Tree::Translated(t) => t.check(locale),
            Tree::List(v) => {
                let ghost s = self@->List_0;
                let mut result = RumbasCheckResult::empty();
                let mut i: usize = 0;
                while i < v.len()
                    invariant
                        *self == Tree::List(*v),
                        s == self@->List_0,
                        i <= v.len(),
                        result@ == locale_missing_items(s.subrange(0, i as int), locale@),
                    decreases v.len() - i,
                {
                    proof { lemma_tree_child(*self, i as int); }
                    let mut c = v[i].check(locale);
                    c.extend_path(index_text(i));
                    result.union(&c);
                    assert(s.subrange(0, i + 1).subrange(0, i as int) =~= s.subrange(0, i as int));
                    i += 1;
                }
                assert(s.subrange(0, v.len() as int) =~= s);
                result
            },
            Tree::Object(kind, v) => {
                let ghost fs = self@->Object_1;
                let mut result = RumbasCheckResult::empty();
                let mut i: usize = 0;
                while i < v.len()
                    invariant
                        *self == Tree::Object(*kind, *v),
                        fs == self@->Object_1,
                        i <= v.len(),
                        result@ == locale_missing_fields(fs.subrange(0, i as int), *kind is Dictionary, locale@),
                    decreases v.len() - i,
                {
                    proof { lemma_tree_child(*self, i as int); }
                    let mut c = v[i].1.check(locale);
                    let segment = match kind {
                        ObjectKind::Dictionary => index_text(i),
                        ObjectKind::Record => v[i].0.clone(),
                    };
                    c.extend_path(segment);
                    result.union(&c);
                    assert(fs.subrange(0, i + 1).subrange(0, i as int) =~= fs.subrange(0, i as int));
                    i += 1;
                }
                assert(fs.subrange(0, v.len() as int) =~= fs);
                result
            },
            _ => RumbasCheckResult::empty(),
        }
    }

    /// The document with each text in its form for `locale`.
    pub fn to_numbas(&self, locale: &String) -> (r: Tree)
        ensures
            r@ == in_locale(self@, locale@),
        decreases self,
    {
        match self {
            Tree::Translated(t) => Tree::Text(
                match t.localize(locale) {
                    Some(s) => s,
                    None => String::new(),
                },
            ),
            Tree::List(v) => {
                let mut out: Vec<Tree> = Vec::new();
                let mut i: usize = 0;
                while i < v.len()
                    invariant
                        *self == Tree::List(*v),
                        i <= v.len(),
                        out@.len() == i,
                        forall|j: int| 0 <= j < i ==> (#[trigger] out@[j])@ == in_locale(v@[j]@, locale@),
                    decreases v.len() - i,
                {
                    proof { lemma_tree_child(*self, i as int); }
                    out.push(v[i].to_numbas(locale));
                    i += 1;
                }
                let r = Tree::List(out);
                assert(r@->List_0 =~= in_locale(self@, locale@)->List_0);
                r
            },
            Tree::Object(kind, v) => {
                let mut out: Vec<(String, Tree)> = Vec::new();
                let mut i: usize = 0;
                while i < v.len()
                    invariant
                        *self == Tree::Object(*kind, *v),
                        i <= v.len(),
                        out@.len() == i,
                        forall|j: int| 0 <= j < i ==> (#[trigger] out@[j]).0@ == v@[j].0@ && out@[j].1@ == in_locale(v@[j].1@, locale@),
                    decreases v.len() - i,
                {
                    proof { lemma_tree_child(*self, i as int); }
                    let c = v[i].1.to_numbas(locale);
                    out.push((v[i].0.clone(), c));
                    i += 1;
                }
                let r = Tree::Object(*kind, out);
                assert(r@->Object_1 =~= in_locale(self@, locale@)->Object_1);
                r
            },
            _ => self.copy(),
        }
    }

    /// The document in `locale` when every text has a form for it, and
    /// otherwise every place that has none.
    pub fn to_numbas_safe(&self, locale: &String) -> (r: Result<Tree, RumbasCheckResult>)
        ensures
            r is Ok <==> locale_missing(self@, locale@).len() == 0,
            r matches Ok(t) ==> t@ == in_locale(self@, locale@),
            r matches Err(c) ==> c@ == locale_missing(self@, locale@),
    {
        let check = self.check(locale);
        if check.is_empty() {
            Ok(self.to_numbas(locale))
        } else {
            Err(check)
        }
    }
}

} // verus!
