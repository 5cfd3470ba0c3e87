//! Typed properties and the per-widget property bag.
//!
//! A property is a typed, named value attached to a widget instance. Its
//! identity is its kind: a widget holds at most one value per kind. The bag
//! is modelled as a finite map from kind to mathematical value.

use vstd::prelude::*;

verus! {

/// Identity of a property. A widget holds at most one value for each kind.
#[derive(Clone, Copy, PartialEq, Eq, Structural, Debug)]
pub enum PropertyKind {
    /// Whether the widget currently receives key input.
    Focused,
    /// The text a widget displays.
    Label,
    /// Placeholder text shown while the label is empty.
    WaterMark,
    /// Style selector handed to the theming collaborator.
    Selector,
}

/// A typed property value attached to a widget.
#[derive(Debug, PartialEq)]
pub enum PropertyValue {
    Focused(bool),
    Label(Vec<char>),
    WaterMark(Vec<char>),
    Selector(Vec<char>),
}

/// Mathematical value of a property.
#[verifier::ext_equal]
pub enum PropVal {
    Focused(bool),
    Label(Seq<char>),
    WaterMark(Seq<char>),
    Selector(Seq<char>),
}

impl View for PropertyValue {
    type V = PropVal;

    open spec fn view(&self) -> PropVal {
        match self {
            PropertyValue::Focused(b) => PropVal::Focused(*b),
            PropertyValue::Label(t) => PropVal::Label(t@),
            PropertyValue::WaterMark(t) => PropVal::WaterMark(t@),
            PropertyValue::Selector(t) => PropVal::Selector(t@),
        }
    }
}

/// The kind under which a value is stored.
pub open spec fn kind_of(v: PropVal) -> PropertyKind {
    match v {
        PropVal::Focused(_) => PropertyKind::Focused,
        PropVal::Label(_) => PropertyKind::Label,
        PropVal::WaterMark(_) => PropertyKind::WaterMark,
        PropVal::Selector(_) => PropertyKind::Selector,
    }
}

/// A fresh vector holding the same characters.
pub fn copy_chars(t: &Vec<char>) -> (r: Vec<char>)
    ensures
        r@ == t@,
{
    let mut r: Vec<char> = Vec::new();
    let mut i: usize = 0;
    while i < t.len()
        invariant
            i <= t@.len(),
            r@ == t@.subrange(0, i as int),
        decreases t@.len() - i,
    {
        r.push(t[i]);
        proof {
            assert(t@.subrange(0, i as int).push(t@[i as int]) =~= t@.subrange(0, i + 1 as int));
        }
        i = i + 1;
    }
    proof {
        assert(t@.subrange(0, t@.len() as int) =~= t@);
    }
    r
}

/// The characters of a string slice, as a fresh vector.
pub fn chars_of_str(s: &str) -> (r: Vec<char>)
    ensures
        r@ == s@,
{
    let n: usize = s.unicode_len();
    let mut r: Vec<char> = Vec::new();
    let mut i: usize = 0;
    while i < n
        invariant
            n == s@.len(),
            i <= n,
            r@ == s@.subrange(0, i as int),
        decreases n - i,
    {
        r.push(s.get_char(i));
        proof {
            assert(s@.subrange(0, i as int).push(s@[i as int]) =~= s@.subrange(0, i + 1 as int));
        }
        i = i + 1;
    }
    proof {
        assert(s@.subrange(0, s@.len() as int) =~= s@);
    }
    r
}

/// Whether two character vectors hold the same text.
pub fn chars_eq(a: &Vec<char>, b: &Vec<char>) -> (r: bool)
    ensures
        r == (a@ == b@),
{
    if a.len() != b.len() {
        return false;
    }
    let mut i: usize = 0;
    while i < a.len()
        invariant
            a@.len() == b@.len(),
            i <= a@.len(),
            forall|j: int| 0 <= j < i ==> a@[j] == b@[j],
        decreases a@.len() - i,
    {
        if a[i] != b[i] {
            return false;
        }
        i = i + 1;
    }
    proof {
        assert(a@ =~= b@);
    }
    true
}

impl PropertyValue {
    /// The kind under which this value is stored.
    pub fn kind(&self) -> (k: PropertyKind)
        ensures
            k == kind_of(self@),
    {
        match self {
            PropertyValue::Focused(_) => PropertyKind::Focused,
            PropertyValue::Label(_) => PropertyKind::Label,
            PropertyValue::WaterMark(_) => PropertyKind::WaterMark,
            PropertyValue::Selector(_) => PropertyKind::Selector,
        }
    }

    /// A value with the same mathematical content.
    pub fn duplicate(&self) -> (r: PropertyValue)
        ensures
            r@ == self@,
    {
        match self {
            PropertyValue::Focused(b) => PropertyValue::Focused(*b),
            PropertyValue::Label(t) => PropertyValue::Label(copy_chars(t)),
            PropertyValue::WaterMark(t) => PropertyValue::WaterMark(copy_chars(t)),
            PropertyValue::Selector(t) => PropertyValue::Selector(copy_chars(t)),
        }
    }
}

/// Failure of a typed property access: the container never declared a value
/// of the requested kind. Local and recoverable; the caller decides how to
/// go on.
#[derive(Clone, Copy, PartialEq, Eq, Structural, Debug)]
pub enum AccessError {
    PropertyNotFound,
}

/// There is an entry of kind `k` at position `i`.
pub open spec fn bag_entry_at(s: Seq<PropertyValue>, k: PropertyKind, i: int) -> bool {
    0 <= i < s.len() && kind_of(s[i]@) == k
}

/// Some entry carries kind `k`.
pub open spec fn bag_has(s: Seq<PropertyValue>, k: PropertyKind) -> bool {
    exists|i: int| bag_entry_at(s, k, i)
}

/// The value stored under kind `k` (meaningful only when `bag_has`).
pub open spec fn bag_lookup(s: Seq<PropertyValue>, k: PropertyKind) -> PropVal {
    s[choose|i: int| bag_entry_at(s, k, i)]@
}

/// The entries, read as a map from kind to value.
pub open spec fn bag_as_map(s: Seq<PropertyValue>) -> Map<PropertyKind, PropVal> {
    Map::new(|k: PropertyKind| bag_has(s, k), |k: PropertyKind| bag_lookup(s, k))
}

/// Entries carry pairwise distinct kinds.
pub open spec fn bag_wf(s: Seq<PropertyValue>) -> bool {
    forall|i: int, j: int| 0 <= i < j < s.len() ==> kind_of(#[trigger] s[i]@) != kind_of(
        #[trigger] s[j]@,
    )
}

/// The by-value properties of one widget: a mapping from kind to value.
#[derive(Debug, PartialEq)]
pub struct PropertyBag {
    pub entries: Vec<PropertyValue>,
}

impl View for PropertyBag {
    type V = Map<PropertyKind, PropVal>;

    open spec fn view(&self) -> Map<PropertyKind, PropVal> {
        bag_as_map(self.entries@)
    }
}

impl PropertyBag {
    /// Entries carry pairwise distinct kinds, so the map view loses nothing.
    pub open spec fn wf(&self) -> bool {
        bag_wf(self.entries@)
    }

    /// An empty bag.
    pub fn new() -> (b: PropertyBag)
        ensures
            b.wf(),
            b@ == Map::<PropertyKind, PropVal>::empty(),
            b.entries@.len() == 0,
    {
        let b = PropertyBag { entries: Vec::new() };
        proof {
            assert(b@ =~= Map::<PropertyKind, PropVal>::empty());
        }
        b
    }

    /// Position of the entry of kind `kind`, if the bag holds one.
    fn find(&self, kind: PropertyKind) -> (r: Option<usize>)
        ensures
            match r {
                Some(i) => bag_entry_at(self.entries@, kind, i as int),
                None => !bag_has(self.entries@, kind),
            },
    {
        let mut i: usize = 0;
        while i < self.entries.len()
            invariant
                i <= self.entries@.len(),
                forall|j: int| 0 <= j < i ==> kind_of(#[trigger] self.entries@[j]@) != kind,
            decreases self.entries@.len() - i,
        {
            if self.entries[i].kind() == kind {
                return Some(i);
            }
            i = i + 1;
        }
        None
    }

    /// Whether the bag holds a value of kind `kind`.
    pub fn contains(&self, kind: PropertyKind) -> (r: bool)
        requires
            self.wf(),
        ensures
            r == self@.dom().contains(kind),
    {
        match self.find(kind) {
            Some(_) => true,
            None => false,
        }
    }

    /// The value of kind `kind`, or `PropertyNotFound` if none was declared.
    pub fn get(&self, kind: PropertyKind) -> (r: Result<PropertyValue, AccessError>)
        requires
            self.wf(),
        ensures
            match r {
                Ok(v) => self@.dom().contains(kind) && v@ == self@[kind],
                Err(e) => e == AccessError::PropertyNotFound && !self@.dom().contains(kind),
            },
    {
        match self.find(kind) {
            Some(i) => {
                proof {
                    lemma_bag_lookup_at(self.entries@, kind, i as int);
                }
                Ok(self.entries[i].duplicate())
            },
            None => Err(AccessError::PropertyNotFound),
        }
    }

    /// Store `value` under its own kind, replacing any earlier value of that
    /// kind.
    pub fn set(&mut self, value: PropertyValue)
        requires
            old(self).wf(),
        ensures
            final(self).wf(),
            final(self)@ == old(self)@.insert(kind_of(value@), value@),
    {
        let ghost k = kind_of(value@);
        let ghost s1 = self.entries@;
        match self.find(value.kind()) {
            Some(i) => {
                self.entries[i] = value;
                proof {
                    lemma_bag_update(s1, self.entries@, i as int, k);
                }
            },
            None => {
                self.entries.push(value);
                proof {
                    lemma_bag_push(s1, self.entries@[s1.len() as int]);
                }
            },
        }
    }
}

impl PropertyBag {
    /// A bag with the same mathematical content.
    pub fn duplicate(&self) -> (r: PropertyBag)
        requires
            self.wf(),
        ensures
            r@ == self@,
            r.wf(),
    {
        let mut entries: Vec<PropertyValue> = Vec::new();
        let mut i: usize = 0;
        while i < self.entries.len()
            invariant
                i <= self.entries@.len(),
                entries@.len() == i,
                forall|j: int| 0 <= j < i ==> #[trigger] entries@[j]@ == self.entries@[j]@,
            decreases self.entries@.len() - i,
        {
            entries.push(self.entries[i].duplicate());
            i = i + 1;
        }
        let r = PropertyBag { entries };
        proof {
            lemma_bag_view_eq(r.entries@, self.entries@);
        }
        r
    }
}

/// Two entry sequences with pairwise equal mathematical values have the
/// same map view and the same well-formedness.
pub proof fn lemma_bag_view_eq(s1: Seq<PropertyValue>, s2: Seq<PropertyValue>)
    requires
        s1.len() == s2.len(),
        forall|j: int| 0 <= j < s1.len() ==> #[trigger] s1[j]@ == s2[j]@,
        bag_wf(s1) || bag_wf(s2),
    ensures
        bag_as_map(s1) == bag_as_map(s2),
        bag_wf(s1) && bag_wf(s2),
{
    if bag_wf(s1) {
        assert forall|i: int, j: int| 0 <= i < j < s2.len() implies kind_of(#[trigger] s2[i]@)
            != kind_of(#[trigger] s2[j]@) by {
            assert(s2[i]@ == s1[i]@);
            assert(s2[j]@ == s1[j]@);
        }
    } else {
        assert forall|i: int, j: int| 0 <= i < j < s1.len() implies kind_of(#[trigger] s1[i]@)
            != kind_of(#[trigger] s1[j]@) by {
            assert(s2[i]@ == s1[i]@);
            assert(s2[j]@ == s1[j]@);
        }
    }
    assert forall|k: PropertyKind| #[trigger] bag_has(s1, k) implies bag_has(s2, k) by {
        let w = choose|w: int| bag_entry_at(s1, k, w);
        assert(bag_entry_at(s2, k, w));
    }
    assert forall|k: PropertyKind| #[trigger] bag_has(s2, k) implies bag_has(s1, k) by {
        let w = choose|w: int| bag_entry_at(s2, k, w);
        assert(bag_entry_at(s1, k, w));
    }
    assert forall|k: PropertyKind| bag_has(s1, k) implies #[trigger] bag_lookup(s1, k)
        == bag_lookup(s2, k) by {
        let w1 = choose|w: int| bag_entry_at(s1, k, w);
        assert(bag_entry_at(s1, k, w1));
        let w2 = choose|w: int| bag_entry_at(s2, k, w);
        assert(bag_entry_at(s2, k, w2));
        assert(bag_entry_at(s1, k, w2));
        assert(bag_entry_at(s2, k, w1));
        assert(w1 == w2);
    }
    assert(bag_as_map(s1) =~= bag_as_map(s2));
}

/// With distinct kinds, an entry of kind `k` at `i` is the one the map view
/// reads.
pub proof fn lemma_bag_lookup_at(s: Seq<PropertyValue>, k: PropertyKind, i: int)
    requires
        bag_wf(s),
        bag_entry_at(s, k, i),
    ensures
        bag_has(s, k),
        bag_lookup(s, k) == s[i]@,
{
    let j = choose|j: int| bag_entry_at(s, k, j);
    assert(bag_entry_at(s, k, j));
    assert(j == i);
}

/// Replacing the entry at `i` by a value of the same kind replaces exactly
/// that key of the map view.
pub proof fn lemma_bag_update(s1: Seq<PropertyValue>, s2: Seq<PropertyValue>, i: int, k: PropertyKind)
    requires
        bag_wf(s1),
        bag_entry_at(s1, k, i),
        s2.len() == s1.len(),
        kind_of(s2[i]@) == k,
        forall|j: int| 0 <= j < s1.len() && j != i ==> s2[j] == s1[j],
    ensures
        bag_wf(s2),
        bag_as_map(s2) == bag_as_map(s1).insert(k, s2[i]@),
{
    assert forall|a: int, b: int| 0 <= a < b < s2.len() implies kind_of(#[trigger] s2[a]@) != kind_of(
        #[trigger] s2[b]@,
    ) by {
        assert(kind_of(s2[a]@) == kind_of(s1[a]@));
        assert(kind_of(s2[b]@) == kind_of(s1[b]@));
    }
    assert forall|k2: PropertyKind| #[trigger] bag_has(s1, k2) implies bag_has(s2, k2) by {
        let w = choose|w: int| bag_entry_at(s1, k2, w);
        assert(bag_entry_at(s2, k2, w));
    }
    assert forall|k2: PropertyKind| #[trigger] bag_has(s2, k2) implies bag_has(s1, k2) by {
        let w = choose|w: int| bag_entry_at(s2, k2, w);
        assert(bag_entry_at(s1, k2, w));
    }
    assert(bag_has(s2, k)) by {
        assert(bag_entry_at(s2, k, i));
    }
    assert forall|k2: PropertyKind| bag_has(s2, k2) implies #[trigger] bag_lookup(s2, k2) == (if k2
        == k {
        s2[i]@
    } else {
        bag_lookup(s1, k2)
    }) by {
        let w2 = choose|w: int| bag_entry_at(s2, k2, w);
        assert(bag_entry_at(s2, k2, w2));
        if k2 == k {
            assert(w2 == i);
        } else {
            assert(w2 != i);
            assert(bag_entry_at(s1, k2, w2));
            let w1 = choose|w: int| bag_entry_at(s1, k2, w);
            assert(bag_entry_at(s1, k2, w1));
            assert(w1 == w2);
        }
    }
    assert(bag_as_map(s2) =~= bag_as_map(s1).insert(k, s2[i]@));
}

/// Appending a value of a fresh kind adds exactly that key to the map view.
pub proof fn lemma_bag_push(s1: Seq<PropertyValue>, v: PropertyValue)
    requires
        bag_wf(s1),
        !bag_has(s1, kind_of(v@)),
    ensures
        bag_wf(s1.push(v)),
        bag_as_map(s1.push(v)) == bag_as_map(s1).insert(kind_of(v@), v@),
{
    let s2 = s1.push(v);
    let k = kind_of(v@);
    assert forall|a: int, b: int| 0 <= a < b < s2.len() implies kind_of(#[trigger] s2[a]@) != kind_of(
        #[trigger] s2[b]@,
    ) by {
        if b < s1.len() {
            assert(s2[a] == s1[a] && s2[b] == s1[b]);
        } else {
            assert(s2[b] == v);
            assert(s2[a] == s1[a]);
            assert(!bag_entry_at(s1, k, a));
        }
    }
    assert forall|k2: PropertyKind| #[trigger] bag_has(s1, k2) implies bag_has(s2, k2) by {
        let w = choose|w: int| bag_entry_at(s1, k2, w);
        assert(bag_entry_at(s2, k2, w));
    }
    assert forall|k2: PropertyKind| #[trigger] bag_has(s2, k2) && k2 != k implies bag_has(
        s1,
        k2,
    ) by {
        let w = choose|w: int| bag_entry_at(s2, k2, w);
        assert(w < s1.len());
        assert(bag_entry_at(s1, k2, w));
    }
    assert(bag_has(s2, k)) by {
        assert(bag_entry_at(s2, k, s1.len() as int));
    }
    assert forall|k2: PropertyKind| bag_has(s2, k2) implies #[trigger] bag_lookup(s2, k2) == (if k2
        == k {
        v@
    } else {
        bag_lookup(s1, k2)
    }) by {
        let w2 = choose|w: int| bag_entry_at(s2, k2, w);
        assert(bag_entry_at(s2, k2, w2));
        if k2 == k {
            assert(w2 == s1.len());
        } else {
            assert(w2 < s1.len());
            assert(bag_entry_at(s1, k2, w2));
            let w1 = choose|w: int| bag_entry_at(s1, k2, w);
            assert(bag_entry_at(s1, k2, w1));
            assert(w1 == w2);
        }
    }
    assert(bag_as_map(s2) =~= bag_as_map(s1).insert(k, v@));
}

} // verus!
