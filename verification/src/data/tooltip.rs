use crate::utils::common::FieldType;
use crate::utils::common::TextType;
use vstd::prelude::*;

verus! {

/// The text layout recorded for each of the four tooltip fields — the small
/// ordered map from [`FieldType`] to [`TextType`], held as one slot per
/// field so iteration order is the fields' fixed order.
#[derive(Clone, Copy, Debug, PartialEq, Eq)]
pub struct FieldTypeMap {
    pub researchtip: Option<TextType>,
    pub researchubertip: Option<TextType>,
    pub tip: Option<TextType>,
    pub ubertip: Option<TextType>,
}

impl FieldTypeMap {
    /// The slot a field type names.
    pub open spec fn spec_get(self, field_type: FieldType) -> Option<TextType> {
        match field_type {
            FieldType::Researchtip => self.researchtip,
            FieldType::Researchubertip => self.researchubertip,
            FieldType::Tip => self.tip,
            FieldType::Ubertip => self.ubertip,
        }
    }

    /// The map after setting one slot.
    pub open spec fn spec_insert(self, field_type: FieldType, text_type: TextType) -> FieldTypeMap {
        match field_type {
            FieldType::Researchtip => FieldTypeMap { researchtip: Some(text_type), ..self },
            FieldType::Researchubertip => FieldTypeMap {
                researchubertip: Some(text_type),
                ..self
            },
            FieldType::Tip => FieldTypeMap { tip: Some(text_type), ..self },
            FieldType::Ubertip => FieldTypeMap { ubertip: Some(text_type), ..self },
        }
    }

    pub fn new() -> (r: FieldTypeMap)
        ensures
            r == (FieldTypeMap {
                researchtip: None::<TextType>,
                researchubertip: None::<TextType>,
                tip: None::<TextType>,
                ubertip: None::<TextType>,
            }),
    {
        FieldTypeMap { researchtip: None, researchubertip: None, tip: None, ubertip: None }
    }

    pub fn insert(&mut self, field_type: FieldType, text_type: TextType)
        ensures
            *final(self) == old(self).spec_insert(field_type, text_type),
    {
        match field_type {
            FieldType::Researchtip => {
                self.researchtip = Some(text_type);
            },
            FieldType::Researchubertip => {
                self.researchubertip = Some(text_type);
            },
            FieldType::Tip => {
                self.tip = Some(text_type);
            },
            FieldType::Ubertip => {
                self.ubertip = Some(text_type);
            },
        }
    }

    pub fn get(&self, field_type: &FieldType) -> (r: Option<TextType>)
        ensures
            r == self.spec_get(*field_type),
    {
        match field_type {
            FieldType::Researchtip => self.researchtip,
            FieldType::Researchubertip => self.researchubertip,
            FieldType::Tip => self.tip,
            FieldType::Ubertip => self.ubertip,
        }
    }
}

impl Default for FieldTypeMap {
    fn default() -> (r: FieldTypeMap)
        ensures
            r == (FieldTypeMap {
                researchtip: None::<TextType>,
                researchubertip: None::<TextType>,
                tip: None::<TextType>,
                ubertip: None::<TextType>,
            }),
    {
        FieldTypeMap::new()
    }
}

/// The model of a sequence of strings.
pub open spec fn strings_view(v: Seq<String>) -> Seq<Seq<char>> {
    v.map_values(|s: String| s@)
}

/// One skill's tooltip data: its id, the four field value lists, and the
/// layout each field was written in.
#[derive(Debug)]
pub struct SkillData {
    pub id: String,
    pub researchtip: Vec<String>,
    pub researchubertip: Vec<String>,
    pub tip: Vec<String>,
    pub ubertip: Vec<String>,
    pub text_type_map: FieldTypeMap,
}

/// Mathematical model of [`SkillData`].
#[verifier::ext_equal]
pub struct SkillDataView {
    pub id: Seq<char>,
    pub researchtip: Seq<Seq<char>>,
    pub researchubertip: Seq<Seq<char>>,
    pub tip: Seq<Seq<char>>,
    pub ubertip: Seq<Seq<char>>,
    pub text_type_map: FieldTypeMap,
}

impl View for SkillData {
    type V = SkillDataView;

    open spec fn view(&self) -> SkillDataView {
        SkillDataView {
            id: self.id@,
            researchtip: strings_view(self.researchtip@),
            researchubertip: strings_view(self.researchubertip@),
            tip: strings_view(self.tip@),
            ubertip: strings_view(self.ubertip@),
            text_type_map: self.text_type_map,
        }
    }
}

impl SkillDataView {
    /// The view after storing one field's values and layout.
    pub open spec fn spec_insert_data(
        self,
        text_type: TextType,
        field_type: FieldType,
        value: Seq<Seq<char>>,
    ) -> SkillDataView {
        let with_field = match field_type {
            FieldType::Researchtip => SkillDataView { researchtip: value, ..self },
            FieldType::Researchubertip => SkillDataView { researchubertip: value, ..self },
            FieldType::Tip => SkillDataView { tip: value, ..self },
            FieldType::Ubertip => SkillDataView { ubertip: value, ..self },
        };
        SkillDataView {
            text_type_map: self.text_type_map.spec_insert(field_type, text_type),
            ..with_field
        }
    }
}

impl SkillData {
    /// Stores one field's values and records the layout it was written in.
    pub fn insert_data(
        &mut self,
        text_type: TextType,
        field_type: FieldType,
        field_value: Vec<String>,
    )
        ensures
            final(self)@ == old(self)@.spec_insert_data(
                text_type,
                field_type,
                strings_view(field_value@),
            ),
    {
        match field_type {
            FieldType::Researchtip => {
                self.researchtip = field_value;
            },
            FieldType::Researchubertip => {
                self.researchubertip = field_value;
            },
            FieldType::Tip => {
                self.tip = field_value;
            },
            FieldType::Ubertip => {
                self.ubertip = field_value;
            },
        }
        self.text_type_map.insert(field_type, text_type);
        proof {
            assert(self@ =~~= old(self)@.spec_insert_data(
                text_type,
                field_type,
                strings_view(field_value@),
            ));
        }
    }
}

impl Default for SkillData {
    fn default() -> (r: SkillData)
        ensures
            r@.id == Seq::<char>::empty(),
            r@.researchtip == Seq::<Seq<char>>::empty(),
            r@.researchubertip == Seq::<Seq<char>>::empty(),
            r@.tip == Seq::<Seq<char>>::empty(),
            r@.ubertip == Seq::<Seq<char>>::empty(),
            r@.text_type_map == (FieldTypeMap {
                researchtip: None::<TextType>,
                researchubertip: None::<TextType>,
                tip: None::<TextType>,
                ubertip: None::<TextType>,
            }),
    {
        let r = SkillData {
            id: String::new(),
            researchtip: Vec::new(),
            researchubertip: Vec::new(),
            tip: Vec::new(),
            ubertip: Vec::new(),
            text_type_map: FieldTypeMap::new(),
        };
        proof {
            assert(strings_view(r.researchtip@) =~= Seq::<Seq<char>>::empty());
            assert(strings_view(r.researchubertip@) =~= Seq::<Seq<char>>::empty());
            assert(strings_view(r.tip@) =~= Seq::<Seq<char>>::empty());
            assert(strings_view(r.ubertip@) =~= Seq::<Seq<char>>::empty());
        }
        r
    }
}

// ---------------------------------------------------------------------------
// A key-sorted map of skills
// ---------------------------------------------------------------------------
/// Strict lexicographic order on character sequences, the order skill ids are
/// kept in.
pub open spec fn lex_lt(a: Seq<char>, b: Seq<char>) -> bool
    decreases a.len(),
{
    if b.len() == 0 {
        false
    } else if a.len() == 0 {
        true
    } else if a[0] != b[0] {
        a[0] < b[0]
    } else {
        lex_lt(a.drop_first(), b.drop_first())
    }
}

/// Lexicographic order is a strict total order: irreflexive, asymmetric-total
/// (trichotomy), and transitive.
pub proof fn lemma_lex_trichotomy(a: Seq<char>, b: Seq<char>)
    ensures
        lex_lt(a, b) || lex_lt(b, a) || a == b,
        lex_lt(a, b) ==> !lex_lt(b, a) && a != b,
    decreases a.len(),
{
    if a.len() == 0 || b.len() == 0 {
        if a.len() == 0 && b.len() == 0 {
            assert(a =~= b);
        }
    } else if a[0] != b[0] {
    } else {
        lemma_lex_trichotomy(a.drop_first(), b.drop_first());
        if a.drop_first() == b.drop_first() {
            assert(a =~= b) by {
                assert(forall|k: int| 1 <= k < a.len() ==> a[k] == a.drop_first()[k - 1]);
                assert(forall|k: int| 1 <= k < b.len() ==> b[k] == b.drop_first()[k - 1]);
            }
        }
    }
}

/// Lexicographic order is transitive.
pub proof fn lemma_lex_transitive(a: Seq<char>, b: Seq<char>, c: Seq<char>)
    requires
        lex_lt(a, b),
        lex_lt(b, c),
    ensures
        lex_lt(a, c),
    decreases a.len() + b.len() + c.len(),
{
    if b.len() == 0 {
    } else if c.len() == 0 {
    } else if a.len() == 0 {
    } else {
        if a[0] != b[0] {
            if b[0] != c[0] {
            } else {
            }
        } else {
            if b[0] != c[0] {
            } else {
                lemma_lex_transitive(a.drop_first(), b.drop_first(), c.drop_first());
            }
        }
    }
}

/// Compares two string slices lexicographically by characters.
pub fn str_lt(a: &str, b: &str) -> (r: bool)
    ensures
        r == lex_lt(a@, b@),
{
    let an = a.unicode_len();
    let bn = b.unicode_len();
    proof {
        assert(a@.skip(0) =~= a@);
        assert(b@.skip(0) =~= b@);
    }
    let mut i: usize = 0;
    while i < an && i < bn
        invariant
            i <= an,
            i <= bn,
            an == a@.len(),
            bn == b@.len(),
            lex_lt(a@, b@) == lex_lt(a@.skip(i as int), b@.skip(i as int)),
            forall|k: int| 0 <= k < i ==> a@[k] == b@[k],
        decreases an - i,
    {
        let ca = a.get_char(i);
        let cb = b.get_char(i);
        if ca != cb {
            proof {
                assert(a@.skip(i as int)[0] == ca && b@.skip(i as int)[0] == cb);
            }
            return ca < cb;
        }
        proof {
            let sa = a@.skip(i as int);
            let sb = b@.skip(i as int);
            assert(sa[0] == ca && sb[0] == cb);
            assert(sa.drop_first() =~= a@.skip(i as int + 1));
            assert(sb.drop_first() =~= b@.skip(i as int + 1));
        }
        i = i + 1;
    }
    proof {
        let sa = a@.skip(i as int);
        let sb = b@.skip(i as int);
        if i >= an {
            assert(sa.len() == 0);
        } else {
            assert(sb.len() == 0);
        }
    }
    i >= an && i < bn
}

/// The model of a skill map: key/data pairs sorted strictly by key.
pub type SkillSeq = Seq<(Seq<char>, SkillDataView)>;

/// Insertion into a key-sorted sequence: an existing key gets the new value
/// in place; a fresh key lands at its sorted position.
pub open spec fn skills_insert(s: SkillSeq, k: Seq<char>, v: SkillDataView) -> SkillSeq
    decreases s.len(),
{
    if s.len() == 0 {
        seq![(k, v)]
    } else if lex_lt(k, s[0].0) {
        seq![(k, v)] + s
    } else if k == s[0].0 {
        seq![(k, v)] + s.drop_first()
    } else {
        seq![s[0]] + skills_insert(s.drop_first(), k, v)
    }
}

/// Keys strictly increase.
pub open spec fn skills_sorted(s: SkillSeq) -> bool {
    forall|i: int, j: int| 0 <= i < j < s.len() ==> lex_lt(s[i].0, s[j].0)
}

/// Sorted insertion keeps the sequence sorted, and lands the pair either in
/// place of its key or at its sorted position.
pub proof fn lemma_skills_insert_sorted(s: SkillSeq, k: Seq<char>, v: SkillDataView)
    requires
        skills_sorted(s),
    ensures
        skills_sorted(skills_insert(s, k, v)),
        forall|i: int|
            0 <= i < skills_insert(s, k, v).len() ==> (#[trigger] skills_insert(s, k, v)[i]) == (
            k,
            v,
            ) || exists|j: int| 0 <= j < s.len() && s[j] == skills_insert(s, k, v)[i],
    decreases s.len(),
{
    let r = skills_insert(s, k, v);
    if s.len() == 0 {
    } else if lex_lt(k, s[0].0) {
        assert forall|i: int, j: int| 0 <= i < j < r.len() implies lex_lt(r[i].0, r[j].0) by {
            if i == 0 {
                assert(r[j] == s[j - 1]);
                if j == 1 {
                } else {
                    assert(lex_lt(s[0].0, s[j - 1].0));
                    lemma_lex_transitive(k, s[0].0, s[j - 1].0);
                }
            } else {
                assert(r[i] == s[i - 1] && r[j] == s[j - 1]);
            }
        }
        assert(forall|i: int| 1 <= i < r.len() ==> r[i] == s[i - 1]);
    } else if k == s[0].0 {
        assert forall|i: int, j: int| 0 <= i < j < r.len() implies lex_lt(r[i].0, r[j].0) by {
            if i == 0 {
                assert(r[j] == s.drop_first()[j - 1]);
                assert(s.drop_first()[j - 1] == s[j]);
            } else {
                assert(r[i] == s[i] && r[j] == s[j]);
            }
        }
        assert(forall|i: int| 1 <= i < r.len() ==> r[i] == s[i]);
    } else {
        lemma_lex_trichotomy(k, s[0].0);
        assert(lex_lt(s[0].0, k));
        let t = s.drop_first();
        assert(forall|i: int| 0 <= i < t.len() ==> t[i] == s[i + 1]);
        assert(skills_sorted(t));
        lemma_skills_insert_sorted(t, k, v);
        let rt = skills_insert(t, k, v);
        assert(forall|i: int| 1 <= i < r.len() ==> r[i] == rt[i - 1]);
        assert forall|i: int, j: int| 0 <= i < j < r.len() implies lex_lt(r[i].0, r[j].0) by {
            if i == 0 {
                assert(r[j] == rt[j - 1]);
                if rt[j - 1] == (k, v) {
                } else {
                    let w = choose|w: int| 0 <= w < t.len() && t[w] == rt[j - 1];
                    assert(lex_lt(s[0].0, t[w].0)) by {
                        assert(t[w] == s[w + 1]);
                    }
                }
            } else {
                assert(r[i] == rt[i - 1] && r[j] == rt[j - 1]);
            }
        }
    }
}

/// A map from skill id to its tooltip data, iterated in ascending id order.
/// Keys are unique; inserting an existing id replaces its data.
#[derive(Debug)]
pub struct SkillMap {
    entries: Vec<(String, SkillData)>,
}

impl View for SkillMap {
    type V = SkillSeq;

    closed spec fn view(&self) -> SkillSeq {
        self.entries@.map_values(|e: (String, SkillData)| (e.0@, e.1@))
    }
}

impl SkillMap {
    /// The sorted-unique-keys invariant.
    pub open spec fn wf(&self) -> bool {
        skills_sorted(self@)
    }

    pub fn new() -> (r: SkillMap)
        ensures
            r@ == Seq::<(Seq<char>, SkillDataView)>::empty(),
            r.wf(),
    {
        let r = SkillMap { entries: Vec::new() };
        proof {
            assert(r@ =~= Seq::<(Seq<char>, SkillDataView)>::empty());
        }
        r
    }

    pub fn len(&self) -> (r: usize)
        ensures
            r == self@.len(),
    {
        self.entries.len()
    }

    pub fn is_empty(&self) -> (r: bool)
        ensures
            r <==> self@.len() == 0,
    {
        self.entries.len() == 0
    }

    /// The id of the entry at a position.
    pub fn key_at(&self, i: usize) -> (r: &String)
        requires
            i < self@.len(),
        ensures
            r@ == self@[i as int].0,
    {
        &self.entries[i].0
    }

    /// The data of the entry at a position.
    pub fn data_at(&self, i: usize) -> (r: &SkillData)
        requires
            i < self@.len(),
        ensures
            r@ == self@[i as int].1,
    {
        &self.entries[i].1
    }

    pub fn contains_key(&self, k: &str) -> (r: bool)
        ensures
            r <==> exists|i: int| 0 <= i < self@.len() && (#[trigger] self@[i]).0 == k@,
    {
        match self.find(k) {
            Some(_) => true,
            None => false,
        }
    }

    /// The data stored under an id, if any.
    pub fn get(&self, k: &str) -> (r: Option<&SkillData>)
        ensures
            match r {
                Some(d) => exists|i: int|
                    0 <= i < self@.len() && (#[trigger] self@[i]).0 == k@ && self@[i].1 == d@,
                None => forall|i: int| 0 <= i < self@.len() ==> (#[trigger] self@[i]).0 != k@,
            },
    {
        match self.find(k) {
            Some(i) => {
                proof {
                    assert(self@[i as int].0 == k@ && self@[i as int].1 == self.entries@[
                        i as int].1@);
                }
                Some(&self.entries[i].1)
            },
            None => None,
        }
    }

    /// The position of an id.
    fn find(&self, k: &str) -> (r: Option<usize>)
        ensures
            match r {
                Some(i) => i < self@.len() && self@[i as int].0 == k@,
                None => forall|i: int| 0 <= i < self@.len() ==> (#[trigger] self@[i]).0 != k@,
            },
    {
        let mut i: usize = 0;
        while i < self.entries.len()
            invariant
                i <= self@.len(),
                self@.len() == self.entries@.len(),
                forall|j: int| 0 <= j < i ==> (#[trigger] self@[j]).0 != k@,
                forall|j: int| 0 <= j < self@.len() ==> (#[trigger] self@[j]).0
                    == self.entries@[j].0@,
            decreases self@.len() - i,
        {
            if crate::utils::text::str_eq(self.entries[i].0.as_str(), k) {
                return Some(i);
            }
            i = i + 1;
        }
        None
    }

    /// Sorted-map insertion: replaces the data of an existing id in place;
    /// a fresh id lands at its sorted position.
    pub fn insert(&mut self, k: String, v: SkillData)
        requires
            old(self).wf(),
        ensures
            final(self)@ == skills_insert(old(self)@, k@, v@),
            final(self).wf(),
    {
        let mut i: usize = 0;
        while i < self.entries.len() && str_lt(self.entries[i].0.as_str(), k.as_str())
            invariant
                i <= self.entries@.len(),
                self@ == old(self)@,
                self@.len() == self.entries@.len(),
                skills_sorted(self@),
                forall|j: int| 0 <= j < i ==> lex_lt((#[trigger] self@[j]).0, k@),
                forall|j: int| 0 <= j < self@.len() ==> (#[trigger] self@[j]).0
                    == self.entries@[j].0@ && self@[j].1 == self.entries@[j].1@,
            decreases self.entries@.len() - i,
        {
            i = i + 1;
        }
        proof {
            lemma_skills_insert_sorted(old(self)@, k@, v@);
        }
        if i < self.entries.len() && crate::utils::text::str_eq(
            self.entries[i].0.as_str(),
            k.as_str(),
        ) {
            self.entries[i] = (k, v);
            proof {
                assert(self@ =~~= old(self)@.update(i as int, (k@, v@)));
                lemma_skills_insert_at(old(self)@, k@, v@, i as int);
            }
        } else {
            proof {
                if i < self.entries@.len() {
                    lemma_lex_trichotomy(old(self)@[i as int].0, k@);
                }
            }
            self.entries.insert(i, (k, v));
            proof {
                assert(self@ =~~= old(self)@.insert(i as int, (k@, v@)));
                lemma_skills_insert_at(old(self)@, k@, v@, i as int);
            }
        }
    }

    /// All ids, in ascending order.
    pub fn keys(&self) -> (r: Vec<String>)
        ensures
            r@.len() == self@.len(),
            forall|i: int| 0 <= i < r@.len() ==> (#[trigger] r@[i])@ == self@[i].0,
    {
        let mut r: Vec<String> = Vec::new();
        let mut i: usize = 0;
        while i < self.entries.len()
            invariant
                i <= self.entries@.len(),
                self@.len() == self.entries@.len(),
                r@.len() == i,
                forall|j: int| 0 <= j < i ==> (#[trigger] r@[j])@ == self@[j].0,
                forall|j: int| 0 <= j < self@.len() ==> (#[trigger] self@[j]).0
                    == self.entries@[j].0@,
            decreases self.entries@.len() - i,
        {
            let mut copy = String::new();
            copy.append(self.entries[i].0.as_str());
            r.push(copy);
            i = i + 1;
        }
        r
    }
}

/// At the position the sorted scan stops, `skills_insert` either replaces the
/// key in place or inserts before it.
proof fn lemma_skills_insert_at(s: SkillSeq, k: Seq<char>, v: SkillDataView, i: int)
    requires
        skills_sorted(s),
        0 <= i <= s.len(),
        forall|j: int| 0 <= j < i ==> lex_lt((#[trigger] s[j]).0, k),
        i < s.len() ==> !lex_lt(s[i].0, k),
    ensures
        i < s.len() && s[i].0 == k ==> skills_insert(s, k, v) == s.update(i, (k, v)),
        (i == s.len() || s[i].0 != k) ==> skills_insert(s, k, v) == s.insert(i, (k, v)),
    decreases s.len(),
{
    if s.len() == 0 {
        assert(skills_insert(s, k, v) =~= s.insert(0, (k, v)));
    } else if i == 0 {
        if s[0].0 == k {
            lemma_lex_trichotomy(k, s[0].0);
            assert(skills_insert(s, k, v) == seq![(k, v)] + s.drop_first());
            assert(seq![(k, v)] + s.drop_first() =~= s.update(0, (k, v)));
        } else {
            lemma_lex_trichotomy(k, s[0].0);
            assert(lex_lt(k, s[0].0));
            assert(skills_insert(s, k, v) == seq![(k, v)] + s);
            assert(seq![(k, v)] + s =~= s.insert(0, (k, v)));
        }
    } else {
        assert(lex_lt(s[0].0, k));
        lemma_lex_trichotomy(k, s[0].0);
        let t = s.drop_first();
        assert(forall|j: int| 0 <= j < t.len() ==> t[j] == s[j + 1]);
        assert(skills_sorted(t));
        lemma_skills_insert_at(t, k, v, i - 1);
        assert(skills_insert(s, k, v) == seq![s[0]] + skills_insert(t, k, v));
        if i < s.len() && s[i].0 == k {
            assert(t[i - 1].0 == k);
            assert(seq![s[0]] + t.update(i - 1, (k, v)) =~= s.update(i, (k, v)));
        } else {
            assert(seq![s[0]] + t.insert(i - 1, (k, v)) =~= s.insert(i, (k, v)));
        }
    }
}

/// The two skill maps an editing session works on: the source skills and
/// their translations.
#[derive(Debug)]
pub struct SkillManager {
    pub skills: SkillMap,
    pub translation_skills: SkillMap,
}

impl SkillManager {
    pub open spec fn wf(&self) -> bool {
        self.skills.wf() && self.translation_skills.wf()
    }

    pub fn new() -> (r: SkillManager)
        ensures
            r.skills@ == Seq::<(Seq<char>, SkillDataView)>::empty(),
            r.translation_skills@ == Seq::<(Seq<char>, SkillDataView)>::empty(),
            r.wf(),
    {
        SkillManager { skills: SkillMap::new(), translation_skills: SkillMap::new() }
    }

    /// Looks one id up in both maps at once. (The maps hand out read access;
    /// updates go through `SkillMap::insert`.)
    pub fn get_data_mut(&self, id: &str) -> (r: (Option<&SkillData>, Option<&SkillData>))
        ensures
            match r.0 {
                Some(d) => exists|i: int|
                    0 <= i < self.skills@.len() && (#[trigger] self.skills@[i]).0 == id@
                        && self.skills@[i].1 == d@,
                None => forall|i: int|
                    0 <= i < self.skills@.len() ==> (#[trigger] self.skills@[i]).0 != id@,
            },
            match r.1 {
                Some(d) => exists|i: int|
                    0 <= i < self.translation_skills@.len() && (
                    #[trigger] self.translation_skills@[i]).0 == id@
                        && self.translation_skills@[i].1 == d@,
                None => forall|i: int|
                    0 <= i < self.translation_skills@.len() ==> (
                    #[trigger] self.translation_skills@[i]).0 != id@,
            },
    {
        (self.skills.get(id), self.translation_skills.get(id))
    }

    /// All known skill ids, in ascending order.
    pub fn get_skill_ids(&self) -> (r: Vec<String>)
        ensures
            r@.len() == self.skills@.len(),
            forall|i: int| 0 <= i < r@.len() ==> (#[trigger] r@[i])@ == self.skills@[i].0,
    {
        self.skills.keys()
    }
}

impl Default for SkillManager {
    fn default() -> (r: SkillManager)
        ensures
            r.skills@ == Seq::<(Seq<char>, SkillDataView)>::empty(),
            r.translation_skills@ == Seq::<(Seq<char>, SkillDataView)>::empty(),
            r.wf(),
    {
        SkillManager::new()
    }
}

/// The whole tooltip editing state: the id being edited and the two maps.
#[derive(Debug)]
pub struct TooltipData {
    pub current_id: String,
    pub skill_manager: SkillManager,
}

impl Default for TooltipData {
    fn default() -> (r: TooltipData)
        ensures
            r.current_id@ == Seq::<char>::empty(),
            r.skill_manager.skills@ == Seq::<(Seq<char>, SkillDataView)>::empty(),
            r.skill_manager.translation_skills@ == Seq::<(Seq<char>, SkillDataView)>::empty(),
            r.skill_manager.wf(),
    {
        TooltipData { current_id: String::new(), skill_manager: SkillManager::new() }
    }
}

} // verus!
