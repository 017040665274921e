//! Property values and the keyed collection of them that every node carries.

use vstd::prelude::*;
use vstd::string::*;

verus! {

/// A double-precision number as the store holds it.
///
/// `bits` is the IEEE 754 binary64 pattern of the value and identifies it.
/// `text` is the decimal numeral of the value and is what the code
/// generator writes, unchanged. The numerals of this library follow one
/// rule, that of the host's default conversion of a double to text: the
/// shortest digits that read back as the same value, no exponent, and no
/// fraction for a whole number, so that zero is `0` and one hundred is
/// `100`. This library does no arithmetic on numbers and does not check that
/// `text` is the numeral of `bits`: whoever builds a `Number` supplies both.
#[derive(Clone, Debug)]
pub struct Number {
    pub bits: u64,
    pub text: String,
}

/// What a [`Number`] is in contracts.
pub struct NumberModel {
    pub bits: u64,
    pub text: Seq<char>,
}

impl View for Number {
    type V = NumberModel;

    open spec fn view(&self) -> NumberModel {
        NumberModel { bits: self.bits, text: self.text@ }
    }
}

/// The number zero.
pub open spec fn number_zero() -> NumberModel {
    NumberModel { bits: 0, text: "0"@ }
}

/// The number one hundred.
pub open spec fn number_hundred() -> NumberModel {
    NumberModel { bits: 0x4059_0000_0000_0000, text: "100"@ }
}

impl Number {
    /// A number from its bit pattern and its numeral.
    pub fn new(bits: u64, text: String) -> (n: Number)
        ensures
            n@ == (NumberModel { bits, text: text@ }),
    {
        Number { bits, text }
    }

    /// Zero, written `0`.
    pub fn zero() -> (n: Number)
        ensures
            n@ == number_zero(),
    {
        Number { bits: 0, text: String::from_str("0") }
    }

    /// One hundred, written `100`.
    pub fn hundred() -> (n: Number)
        ensures
            n@ == number_hundred(),
    {
        Number { bits: 0x4059_0000_0000_0000, text: String::from_str("100") }
    }

    /// A copy that is equal in every field.
    pub fn duplicate(&self) -> (n: Number)
        ensures
            n@ == self@,
    {
        Number { bits: self.bits, text: self.text.clone() }
    }
}

/// The value of a property: text, a number, a truth value or a packed
/// 32-bit colour (alpha in the highest byte, then red, green and blue).
#[derive(Clone, Debug)]
pub enum PropertyValue {
    String(String),
    Number(Number),
    Boolean(bool),
    Color(u32),
}

/// What a [`PropertyValue`] is in contracts.
pub enum PropertyModel {
    String(Seq<char>),
    Number(NumberModel),
    Boolean(bool),
    Color(u32),
}

impl View for PropertyValue {
    type V = PropertyModel;

    open spec fn view(&self) -> PropertyModel {
        match *self {
            PropertyValue::String(s) => PropertyModel::String(s@),
            PropertyValue::Number(n) => PropertyModel::Number(n@),
            PropertyValue::Boolean(b) => PropertyModel::Boolean(b),
            PropertyValue::Color(c) => PropertyModel::Color(c),
        }
    }
}

/// Whether two values are of the same variant.
pub open spec fn same_variant(a: PropertyModel, b: PropertyModel) -> bool {
    match a {
        PropertyModel::String(_) => b is String,
        PropertyModel::Number(_) => b is Number,
        PropertyModel::Boolean(_) => b is Boolean,
        PropertyModel::Color(_) => b is Color,
    }
}

impl PropertyValue {
    /// A copy of the same variant with an equal payload.
    pub fn duplicate(&self) -> (v: PropertyValue)
        ensures
            v@ == self@,
    {
        match self {
            PropertyValue::String(s) => PropertyValue::String(s.clone()),
            PropertyValue::Number(n) => PropertyValue::Number(n.duplicate()),
            PropertyValue::Boolean(b) => PropertyValue::Boolean(*b),
            PropertyValue::Color(c) => PropertyValue::Color(*c),
        }
    }
}

/// One keyed entry of a node's properties.
#[derive(Clone, Debug)]
pub struct Property {
    pub key: String,
    pub value: PropertyValue,
}

/// The properties of a node, looked up by key.
///
/// The entries are kept in a vector. Where a key occurs more than once, the
/// entry nearest the end is the one that counts; `insert` never adds a second
/// entry for a key that is already there.
#[derive(Clone, Debug)]
pub struct Properties {
    pub entries: Vec<Property>,
}

/// The mapping that a sequence of entries stands for: each key goes to the
/// value of the last entry that carries it.
pub open spec fn entries_map(s: Seq<Property>) -> Map<Seq<char>, PropertyModel>
    decreases s.len(),
{
    if s.len() == 0 {
        Map::empty()
    } else {
        entries_map(s.drop_last()).insert(s.last().key@, s.last().value@)
    }
}

impl View for Properties {
    type V = Map<Seq<char>, PropertyModel>;

    open spec fn view(&self) -> Map<Seq<char>, PropertyModel> {
        entries_map(self.entries@)
    }
}

/// The entry at `i` decides the lookup of its key when no later entry has
/// the same key.
pub proof fn lemma_entries_map_last_match(s: Seq<Property>, i: int)
    requires
        0 <= i < s.len(),
        forall|j: int| i < j < s.len() ==> s[j].key@ != s[i].key@,
    ensures
        entries_map(s).contains_key(s[i].key@),
        entries_map(s)[s[i].key@] == s[i].value@,
    decreases s.len(),
{
    if i < s.len() - 1 {
        lemma_entries_map_last_match(s.drop_last(), i);
    }
}

/// A key that no entry carries is not in the mapping.
pub proof fn lemma_entries_map_absent(s: Seq<Property>, key: Seq<char>)
    requires
        forall|j: int| 0 <= j < s.len() ==> s[j].key@ != key,
    ensures
        !entries_map(s).contains_key(key),
    decreases s.len(),
{
    if s.len() > 0 {
        lemma_entries_map_absent(s.drop_last(), key);
    }
}

/// Replacing the deciding entry of a key replaces the key's value and
/// nothing else.
pub proof fn lemma_entries_map_update(s: Seq<Property>, i: int, e: Property)
    requires
        0 <= i < s.len(),
        s[i].key@ == e.key@,
        forall|j: int| i < j < s.len() ==> s[j].key@ != e.key@,
    ensures
        entries_map(s.update(i, e)) == entries_map(s).insert(e.key@, e.value@),
    decreases s.len(),
{
    let t = s.update(i, e);
    if i == s.len() - 1 {
        assert(t.drop_last() =~= s.drop_last());
        assert(entries_map(t) =~= entries_map(s).insert(e.key@, e.value@));
    } else {
        lemma_entries_map_update(s.drop_last(), i, e);
        assert(t.drop_last() =~= s.drop_last().update(i, e));
        assert(t.last() == s.last());
        assert(entries_map(t) =~= entries_map(s).insert(e.key@, e.value@));
    }
}

impl Properties {
    /// No properties at all.
    pub fn new() -> (p: Properties)
        ensures
            p@ == Map::<Seq<char>, PropertyModel>::empty(),
            p.entries@.len() == 0,
    {
        Properties { entries: Vec::new() }
    }

    /// The number of entries held.
    pub fn len(&self) -> (n: usize)
        ensures
            n == self.entries@.len(),
    {
        self.entries.len()
    }

    /// The position of the entry that decides `key`, if there is one.
    fn position(&self, key: &String) -> (at: Option<usize>)
        ensures
            match at {
                Some(i) => {
                    &&& i < self.entries@.len()
                    &&& self.entries@[i as int].key@ == key@
                    &&& forall|j: int| i < j < self.entries@.len() ==> self.entries@[j].key@ != key@
                    &&& self@.contains_key(key@)
                    &&& self@[key@] == self.entries@[i as int].value@
                },
                None => {
                    &&& forall|j: int| 0 <= j < self.entries@.len() ==> self.entries@[j].key@ != key@
                    &&& !self@.contains_key(key@)
                },
            },
    {
        let mut i: usize = self.entries.len();
        while i > 0
            invariant
                i <= self.entries@.len(),
                forall|j: int| i <= j < self.entries@.len() ==> self.entries@[j].key@ != key@,
            decreases i,
        {
            i -= 1;
            if self.entries[i].key == *key {
                proof {
                    lemma_entries_map_last_match(self.entries@, i as int);
                }
                return Some(i);
            }
        }
        proof {
            lemma_entries_map_absent(self.entries@, key@);
        }
        None
    }

    /// Whether a value is stored under `key`.
    pub fn contains_key(&self, key: &str) -> (found: bool)
        ensures
            found == self@.contains_key(key@),
    {
        let owned = String::from_str(key);
        self.position(&owned).is_some()
    }

    /// The value stored under `key`, if any.
    pub fn get(&self, key: &str) -> (found: Option<&PropertyValue>)
        ensures
            match found {
                Some(v) => self@.contains_key(key@) && v@ == self@[key@],
                None => !self@.contains_key(key@),
            },
    {
        let owned = String::from_str(key);
        match self.position(&owned) {
            Some(i) => Some(&self.entries[i].value),
            None => None,
        }
    }

    /// Stores `value` under `key`, in place of any value that was there.
    pub fn insert(&mut self, key: String, value: PropertyValue)
        ensures
            final(self)@ == old(self)@.insert(key@, value@),
    {
        match self.position(&key) {
            Some(i) => {
                proof {
                    lemma_entries_map_update(self.entries@, i as int, Property { key, value });
                }
                self.entries.set(i, Property { key, value });
            },
            None => {
                proof {
                    assert(self.entries@.push(Property { key, value }).drop_last() =~= self.entries@);
                }
                self.entries.push(Property { key, value });
            },
        }
    }

    /// A copy with equal entries in the same order.
    pub fn duplicate(&self) -> (p: Properties)
        ensures
            p@ == self@,
            p.entries@.len() == self.entries@.len(),
    {
        let mut entries: Vec<Property> = Vec::new();
        let mut i: usize = 0;
        while i < self.entries.len()
            invariant
                i <= self.entries@.len(),
                entries@.len() == i,
                entries_map(entries@) == entries_map(self.entries@.take(i as int)),
            decreases self.entries@.len() - i,
        {
            let e = &self.entries[i];
            let copy = Property { key: e.key.clone(), value: e.value.duplicate() };
            proof {
                let next = self.entries@.take(i + 1);
                assert(next.drop_last() =~= self.entries@.take(i as int));
                assert(entries@.push(copy).drop_last() =~= entries@);
            }
            entries.push(copy);
            i += 1;
        }
        proof {
            assert(self.entries@.take(i as int) =~= self.entries@);
        }
        Properties { entries }
    }
}

} // verus!
