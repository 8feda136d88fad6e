use vstd::prelude::*;

verus! {

/// Which of the two tables of a file a record belongs to.
#[derive(Clone, Copy, Debug, PartialEq, Eq, Structural)]
pub enum TableType {
    Original,
    Custom,
}

/// Wire encoding selector for a modification's value.
#[derive(Clone, Copy, Debug, PartialEq, Eq, Structural)]
pub enum ModificationType {
    Int,
    Real,
    Unreal,
    String,
}

/// The seven object categories, each tied to one file extension and deciding
/// whether the extended per-entry layout (level/variation and column) is used.
#[derive(Clone, Copy, Debug, PartialEq, Eq, Structural)]
pub enum ObjectType {
    Units,
    Items,
    Destructables,
    Doodads,
    Abilities,
    Buffs,
    Upgrades,
}

impl ObjectType {
    /// Object types whose modification entries carry the two extra
    /// level/variation and column fields on the wire.
    pub open spec fn spec_needs_variant_fields(self) -> bool {
        self is Doodads || self is Abilities || self is Upgrades
    }

    /// Single-sourced capability check for the extended entry layout.
    pub fn needs_variant_fields(&self) -> (r: bool)
        ensures
            r == self.spec_needs_variant_fields(),
    {
        match self {
            ObjectType::Doodads | ObjectType::Abilities | ObjectType::Upgrades => true,
            _ => false,
        }
    }

    /// The file extensions of all supported object types, in declaration order.
    pub fn all_extensions() -> (r: Vec<&'static str>)
        ensures
            r@.len() == 7,
            r@[0]@ == "w3u"@ && r@[1]@ == "w3t"@ && r@[2]@ == "w3b"@ && r@[3]@ == "w3d"@,
            r@[4]@ == "w3a"@ && r@[5]@ == "w3h"@ && r@[6]@ == "w3q"@,
    {
        let mut v: Vec<&'static str> = Vec::new();
        v.push("w3u");
        v.push("w3t");
        v.push("w3b");
        v.push("w3d");
        v.push("w3a");
        v.push("w3h");
        v.push("w3q");
        v
    }

    /// ASCII lowercasing, the only case folding the extension match needs.
    pub open spec fn spec_ascii_lower(c: char) -> char {
        if 'A' <= c <= 'Z' {
            ((c as u8) + 0x20) as char
        } else {
            c
        }
    }

    /// The object type a (case-insensitive) file extension names, if any.
    pub open spec fn spec_from_extension(ext: Seq<char>) -> Option<ObjectType> {
        let low = ext.map_values(|c: char| ObjectType::spec_ascii_lower(c));
        if low == "w3u"@ {
            Some(ObjectType::Units)
        } else if low == "w3t"@ {
            Some(ObjectType::Items)
        } else if low == "w3b"@ {
            Some(ObjectType::Destructables)
        } else if low == "w3d"@ {
            Some(ObjectType::Doodads)
        } else if low == "w3a"@ {
            Some(ObjectType::Abilities)
        } else if low == "w3h"@ {
            Some(ObjectType::Buffs)
        } else if low == "w3q"@ {
            Some(ObjectType::Upgrades)
        } else {
            None
        }
    }

    /// Maps a file extension such as `"w3u"` (any ASCII case) to its object type.
    pub fn from_extension(ext: &str) -> (r: Option<ObjectType>)
        ensures
            r == ObjectType::spec_from_extension(ext@),
    {
        proof {
            reveal_strlit("w3u");
            reveal_strlit("w3t");
            reveal_strlit("w3b");
            reveal_strlit("w3d");
            reveal_strlit("w3a");
            reveal_strlit("w3h");
            reveal_strlit("w3q");
        }
        let ghost low = ext@.map_values(|c: char| ObjectType::spec_ascii_lower(c));
        let len = ext.unicode_len();
        if len != 3 {
            proof {
                assert(low.len() == ext@.len());
            }
            return None;
        }
        let c0 = ascii_lower(ext.get_char(0));
        let c1 = ascii_lower(ext.get_char(1));
        let c2 = ascii_lower(ext.get_char(2));
        proof {
            assert(low.len() == 3);
            assert(low[0] == c0 && low[1] == c1 && low[2] == c2);
        }
        if c0 != 'w' || c1 != '3' {
            return None;
        }
        if c2 == 'u' {
            proof {
                assert(low =~= "w3u"@);
            }
            Some(ObjectType::Units)
        } else if c2 == 't' {
            proof {
                assert(low =~= "w3t"@);
            }
            Some(ObjectType::Items)
        } else if c2 == 'b' {
            proof {
                assert(low =~= "w3b"@);
            }
            Some(ObjectType::Destructables)
        } else if c2 == 'd' {
            proof {
                assert(low =~= "w3d"@);
            }
            Some(ObjectType::Doodads)
        } else if c2 == 'a' {
            proof {
                assert(low =~= "w3a"@);
            }
            Some(ObjectType::Abilities)
        } else if c2 == 'h' {
            proof {
                assert(low =~= "w3h"@);
            }
            Some(ObjectType::Buffs)
        } else if c2 == 'q' {
            proof {
                assert(low =~= "w3q"@);
            }
            Some(ObjectType::Upgrades)
        } else {
            None
        }
    }
}

/// Executable ASCII lowercasing matching [`ObjectType::spec_ascii_lower`].
pub fn ascii_lower(c: char) -> (r: char)
    ensures
        r == ObjectType::spec_ascii_lower(c),
{
    if 'A' <= c && c <= 'Z' {
        (c as u8 + 0x20) as char
    } else {
        c
    }
}

/// A modification's typed payload. Float payloads are carried as their raw
/// IEEE-754 little-endian bit patterns, which is exactly what the wire format
/// stores and what the round-trip laws preserve.
#[derive(Clone, Debug, PartialEq)]
pub enum ModificationValue {
    Int(i32),
    Real(u32),
    Unreal(u32),
    String(Vec<u8>),
}

/// Mathematical model of [`ModificationValue`].
#[verifier::ext_equal]
pub enum ModificationValueView {
    Int(i32),
    Real(u32),
    Unreal(u32),
    String(Seq<u8>),
}

impl View for ModificationValue {
    type V = ModificationValueView;

    open spec fn view(&self) -> ModificationValueView {
        match self {
            ModificationValue::Int(v) => ModificationValueView::Int(*v),
            ModificationValue::Real(v) => ModificationValueView::Real(*v),
            ModificationValue::Unreal(v) => ModificationValueView::Unreal(*v),
            ModificationValue::String(v) => ModificationValueView::String(v@),
        }
    }
}

/// One field override: a 4-byte field id, the value's wire-type tag, the
/// value, and the extended-layout integers.
#[derive(Clone, Debug, PartialEq)]
pub struct Modification {
    pub id: Vec<u8>,
    pub kind: ModificationType,
    pub value: ModificationValue,
    pub level: i32,
    pub column: i32,
    pub variation: i32,
}

/// Mathematical model of [`Modification`].
#[verifier::ext_equal]
pub struct ModificationView {
    pub id: Seq<u8>,
    pub kind: ModificationType,
    pub value: ModificationValueView,
    pub level: i32,
    pub column: i32,
    pub variation: i32,
}

impl View for Modification {
    type V = ModificationView;

    open spec fn view(&self) -> ModificationView {
        ModificationView {
            id: self.id@,
            kind: self.kind,
            value: self.value@,
            level: self.level,
            column: self.column,
            variation: self.variation,
        }
    }
}

/// The model of one table: key/modification-list pairs in insertion order.
pub type EntrySeq = Seq<(Seq<u8>, Seq<ModificationView>)>;

/// The model of a modification list.
pub open spec fn mods_view(v: Seq<Modification>) -> Seq<ModificationView> {
    v.map_values(|m: Modification| m@)
}

/// Whether an entry sequence holds the key.
pub open spec fn entries_contain_key(s: EntrySeq, k: Seq<u8>) -> bool {
    exists|i: int| 0 <= i < s.len() && s[i].0 == k
}

/// Insertion with ordered-map semantics: an existing key keeps its position
/// and gets the new value; a fresh key is appended.
pub open spec fn entries_insert(s: EntrySeq, k: Seq<u8>, v: Seq<ModificationView>) -> EntrySeq
    decreases s.len(),
{
    if s.len() == 0 {
        seq![(k, v)]
    } else if s[0].0 == k {
        seq![(k, v)] + s.drop_first()
    } else {
        seq![s[0]] + entries_insert(s.drop_first(), k, v)
    }
}

/// Keys are pairwise distinct.
pub open spec fn entries_wf(s: EntrySeq) -> bool {
    forall|i: int, j: int| 0 <= i < j < s.len() ==> s[i].0 != s[j].0
}

/// Byte-wise equality of two byte vectors.
pub fn bytes_eq(a: &Vec<u8>, b: &Vec<u8>) -> (r: bool)
    ensures
        r <==> a@ == b@,
{
    if a.len() != b.len() {
        proof {
            assert(a@.len() != b@.len());
        }
        return false;
    }
    let mut i: usize = 0;
    while i < a.len()
        invariant
            i <= a.len(),
            a.len() == b.len(),
            forall|j: int| 0 <= j < i ==> a@[j] == b@[j],
        decreases a.len() - i,
    {
        if a[i] != b[i] {
            return false;
        }
        i += 1;
    }
    proof {
        assert(a@ =~= b@);
    }
    true
}

/// An insertion-ordered map from byte-string keys to modification lists.
/// Keys are unique; inserting an existing key replaces its value in place,
/// keeping the original position, as the decoder's table-building requires.
#[derive(Clone, Debug)]
pub struct ModMap {
    entries: Vec<(Vec<u8>, Vec<Modification>)>,
}

impl View for ModMap {
    type V = EntrySeq;

    closed spec fn view(&self) -> EntrySeq {
        self.entries@.map_values(|e: (Vec<u8>, Vec<Modification>)| (e.0@, mods_view(e.1@)))
    }
}

impl ModMap {
    /// The unique-keys invariant.
    pub open spec fn wf(&self) -> bool {
        entries_wf(self@)
    }

    pub fn new() -> (r: ModMap)
        ensures
            r@ == Seq::<(Seq<u8>, Seq<ModificationView>)>::empty(),
            r.wf(),
    {
        let r = ModMap { entries: Vec::new() };
        proof {
            assert(r@ =~= Seq::<(Seq<u8>, Seq<ModificationView>)>::empty());
        }
        r
    }

    pub fn len(&self) -> (r: usize)
        ensures
            r == self@.len(),
    {
        self.entries.len()
    }

    pub fn is_empty(&self) -> (r: bool)
        ensures
            r <==> self@.len() == 0,
    {
        self.entries.len() == 0
    }

    /// The key of the entry at a position.
    pub fn key_at(&self, i: usize) -> (r: &Vec<u8>)
        requires
            i < self@.len(),
        ensures
            r@ == self@[i as int].0,
    {
        &self.entries[i].0
    }

    /// The modification list of the entry at a position.
    pub fn mods_at(&self, i: usize) -> (r: &Vec<Modification>)
        requires
            i < self@.len(),
        ensures
            mods_view(r@) == self@[i as int].1,
    {
        &self.entries[i].1
    }

    pub fn contains_key(&self, k: &Vec<u8>) -> (r: bool)
        ensures
            r <==> entries_contain_key(self@, k@),
    {
        let mut i: usize = 0;
        while i < self.entries.len()
            invariant
                i <= self@.len(),
                self@.len() == self.entries@.len(),
                forall|j: int| 0 <= j < i ==> self@[j].0 != k@,
                forall|j: int| 0 <= j < self@.len() ==> self@[j].0 == self.entries@[j].0@,
            decreases self@.len() - i,
        {
            if bytes_eq(&self.entries[i].0, k) {
                proof {
                    assert(self@[i as int].0 == k@);
                }
                return true;
            }
            i += 1;
        }
        false
    }

    /// The modification list stored under a key, if any.
    pub fn get(&self, k: &Vec<u8>) -> (r: Option<&Vec<Modification>>)
        ensures
            match r {
                Some(v) => exists|i: int|
                    0 <= i < self@.len() && self@[i].0 == k@ && self@[i].1 == mods_view(v@),
                None => !entries_contain_key(self@, k@),
            },
    {
        let mut i: usize = 0;
        while i < self.entries.len()
            invariant
                i <= self@.len(),
                self@.len() == self.entries@.len(),
                forall|j: int| 0 <= j < i ==> self@[j].0 != k@,
                forall|j: int| 0 <= j < self@.len() ==> self@[j].0 == self.entries@[j].0@
                    && self@[j].1 == mods_view(self.entries@[j].1@),
            decreases self@.len() - i,
        {
            if bytes_eq(&self.entries[i].0, k) {
                proof {
                    assert(self@[i as int].0 == k@ && self@[i as int].1 == mods_view(
                        self.entries@[i as int].1@,
                    ));
                }
                return Some(&self.entries[i].1);
            }
            i += 1;
        }
        None
    }

    /// Ordered-map insertion: replaces in place on an existing key, appends
    /// on a fresh one.
    pub fn insert(&mut self, k: Vec<u8>, v: Vec<Modification>)
        requires
            old(self).wf(),
        ensures
            final(self)@ == entries_insert(old(self)@, k@, mods_view(v@)),
            final(self).wf(),
    {
        let mut i: usize = 0;
        while i < self.entries.len()
            invariant
                i <= self.entries@.len(),
                self@ == old(self)@,
                self@.len() == self.entries@.len(),
                entries_wf(self@),
                forall|j: int| 0 <= j < i ==> self@[j].0 != k@,
                forall|j: int| 0 <= j < self@.len() ==> self@[j].0 == self.entries@[j].0@
                    && self@[j].1 == mods_view(self.entries@[j].1@),
            decreases self.entries@.len() - i,
        {
            if bytes_eq(&self.entries[i].0, &k) {
                self.entries[i].1 = v;
                proof {
                    assert(self@ =~~= old(self)@.update(i as int, (k@, mods_view(v@))));
                    lemma_entries_insert_found(old(self)@, k@, mods_view(v@), i as int);
                }
                return ;
            }
            i += 1;
        }
        self.entries.push((k, v));
        proof {
            assert(self@ =~~= old(self)@.push((k@, mods_view(v@))));
            lemma_entries_insert_fresh(old(self)@, k@, mods_view(v@));
        }
    }
}

/// Inserting a fresh key appends it.
pub proof fn lemma_entries_insert_fresh(s: EntrySeq, k: Seq<u8>, v: Seq<ModificationView>)
    requires
        !entries_contain_key(s, k),
    ensures
        entries_insert(s, k, v) == s.push((k, v)),
        entries_wf(s) ==> entries_wf(s.push((k, v))),
    decreases s.len(),
{
    if s.len() == 0 {
        assert(entries_insert(s, k, v) =~= s.push((k, v)));
    } else {
        assert(s[0].0 != k);
        assert(!entries_contain_key(s.drop_first(), k)) by {
            assert(forall|i: int|
                0 <= i < s.drop_first().len() ==> s.drop_first()[i] == s[i + 1]);
        }
        lemma_entries_insert_fresh(s.drop_first(), k, v);
        assert(entries_insert(s, k, v) =~= s.push((k, v)));
    }
}

/// Inserting an existing key updates it in place.
pub proof fn lemma_entries_insert_found(
    s: EntrySeq,
    k: Seq<u8>,
    v: Seq<ModificationView>,
    i: int,
)
    requires
        entries_wf(s),
        0 <= i < s.len(),
        s[i].0 == k,
    ensures
        entries_insert(s, k, v) == s.update(i, (k, v)),
        entries_wf(s.update(i, (k, v))),
    decreases s.len(),
{
    if i == 0 {
        assert(entries_insert(s, k, v) =~= s.update(0, (k, v)));
    } else {
        assert(s[0].0 != k);
        let t = s.drop_first();
        assert(forall|j: int| 0 <= j < t.len() ==> t[j] == s[j + 1]);
        assert(entries_wf(t));
        lemma_entries_insert_found(t, k, v, i - 1);
        assert(entries_insert(s, k, v) =~= s.update(i, (k, v)));
    }
}

/// Mathematical model of [`ObjectModificationTable`].
#[verifier::ext_equal]
pub struct TableView {
    pub original: EntrySeq,
    pub custom: EntrySeq,
}

/// The in-memory form of one object modification file: the base-object table
/// keyed by 4-byte ids, and the custom-object table keyed by 9-byte
/// `custom:original` compound ids.
#[derive(Clone, Debug)]
pub struct ObjectModificationTable {
    pub original: ModMap,
    pub custom: ModMap,
}

impl View for ObjectModificationTable {
    type V = TableView;

    open spec fn view(&self) -> TableView {
        TableView { original: self.original@, custom: self.custom@ }
    }
}

impl ObjectModificationTable {
    pub open spec fn wf(&self) -> bool {
        self.original.wf() && self.custom.wf()
    }

    pub fn new() -> (r: ObjectModificationTable)
        ensures
            r@.original == Seq::<(Seq<u8>, Seq<ModificationView>)>::empty(),
            r@.custom == Seq::<(Seq<u8>, Seq<ModificationView>)>::empty(),
            r.wf(),
    {
        ObjectModificationTable { original: ModMap::new(), custom: ModMap::new() }
    }
}

} // verus!
