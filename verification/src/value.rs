//! The tree a parse produces, and the mathematical value it stands for.

use vstd::prelude::*;
use vstd::set_lib::lemma_subset_equality;
use vstd::std_specs::cmp::PartialEqSpecImpl;

verus! {

/// The mathematical JSON value: what a [`Value`] means in contracts.
///
/// A number is kept as the text it was written with.
pub enum Json {
    Null,
    Boolean(bool),
    Number(Seq<char>),
    String(Seq<char>),
    Array(Seq<Json>),
    Object(Map<Seq<char>, Json>),
}

/// The members of a JSON object, at most one for each key.
///
/// Members are kept in the order in which their keys first arrived; the order
/// carries no meaning, and the view is a map.
#[derive(Debug)]
pub struct Object {
    entries: Vec<(String, Value)>,
}

/// A parsed JSON value.
///
/// `Number` holds the numeral exactly as it stood in the input.
#[derive(Debug)]
pub enum Value {
    Null,
    Boolean(bool),
    Number(String),
    String(String),
    Array(Vec<Value>),
    Object(Object),
}

/// The values that the first `n` of `items` stand for, in order.
pub open spec fn elements_view(items: Seq<Value>, n: nat) -> Seq<Json>
    decreases items, n,
{
    if n == 0 || n > items.len() {
        Seq::empty()
    } else {
        elements_view(items, (n - 1) as nat).push(items[n - 1].view())
    }
}

/// The map that the first `n` of `entries` build when inserted one after
/// another: a later entry replaces an earlier one with the same key.
pub open spec fn entries_view(entries: Seq<(String, Value)>, n: nat) -> Map<Seq<char>, Json>
    decreases entries, n,
{
    if n == 0 || n > entries.len() {
        Map::empty()
    } else {
        entries_view(entries, (n - 1) as nat).insert(entries[n - 1].0@, entries[n - 1].1.view())
    }
}

/// No two entries share a key.
pub open spec fn distinct_keys(entries: Seq<(String, Value)>) -> bool {
    forall|i: int, j: int| 0 <= i < j < entries.len() ==> entries[i].0@ != entries[j].0@
}

impl View for Value {
    type V = Json;

    open spec fn view(&self) -> Json
        decreases self,
    {
        match self {
            Value::Null => Json::Null,
            Value::Boolean(b) => Json::Boolean(*b),
            Value::Number(t) => Json::Number(t@),
            Value::String(t) => Json::String(t@),
            Value::Array(items) => Json::Array(elements_view(items@, items@.len())),
            Value::Object(o) => Json::Object(entries_view(o.entries(), o.entries().len())),
        }
    }
}

impl View for Object {
    type V = Map<Seq<char>, Json>;

    open spec fn view(&self) -> Map<Seq<char>, Json> {
        entries_view(self.entries(), self.entries().len())
    }
}

/// `elements_view` reads only the entries it counts.
pub proof fn lemma_elements_view_prefix(a: Seq<Value>, b: Seq<Value>, n: nat)
    requires
        n <= a.len(),
        n <= b.len(),
        forall|i: int| 0 <= i < n ==> a[i] == b[i],
    ensures
        elements_view(a, n) == elements_view(b, n),
    decreases n,
{
    if n > 0 {
        lemma_elements_view_prefix(a, b, (n - 1) as nat);
    }
}

/// The view of a vector of values has one element for each value.
pub proof fn lemma_elements_view_index(items: Seq<Value>, n: nat)
    requires
        n <= items.len(),
    ensures
        elements_view(items, n).len() == n,
        forall|i: int| 0 <= i < n ==> (#[trigger] elements_view(items, n)[i]) == items[i]@,
    decreases n,
{
    if n > 0 {
        lemma_elements_view_index(items, (n - 1) as nat);
        assert(elements_view(items, n) == elements_view(items, (n - 1) as nat).push(
            items[n - 1]@,
        ));
    }
}

/// Vectors whose values stand for the same, place by place, stand for the
/// same.
pub proof fn lemma_elements_view_eq(a: Seq<Value>, b: Seq<Value>, n: nat)
    requires
        n <= a.len(),
        n <= b.len(),
        forall|i: int| 0 <= i < n ==> (#[trigger] a[i])@ == b[i]@,
    ensures
        elements_view(a, n) == elements_view(b, n),
    decreases n,
{
    if n > 0 {
        lemma_elements_view_eq(a, b, (n - 1) as nat);
        assert(a[n - 1]@ == b[n - 1]@);
    }
}

/// Entries whose keys and values stand for the same, place by place, make
/// the same map.
pub proof fn lemma_entries_view_eq(a: Seq<(String, Value)>, b: Seq<(String, Value)>, n: nat)
    requires
        n <= a.len(),
        n <= b.len(),
        forall|i: int| 0 <= i < n ==> (#[trigger] a[i]).0@ == b[i].0@ && a[i].1@ == b[i].1@,
    ensures
        entries_view(a, n) == entries_view(b, n),
    decreases n,
{
    if n > 0 {
        lemma_entries_view_eq(a, b, (n - 1) as nat);
        assert(a[n - 1].0@ == b[n - 1].0@ && a[n - 1].1@ == b[n - 1].1@);
    }
}

/// `entries_view` reads only the entries it counts.
pub proof fn lemma_entries_view_prefix(
    a: Seq<(String, Value)>,
    b: Seq<(String, Value)>,
    n: nat,
)
    requires
        n <= a.len(),
        n <= b.len(),
        forall|i: int| 0 <= i < n ==> a[i] == b[i],
    ensures
        entries_view(a, n) == entries_view(b, n),
    decreases n,
{
    if n > 0 {
        lemma_entries_view_prefix(a, b, (n - 1) as nat);
    }
}

/// A key is in the map exactly when some counted entry carries it.
pub proof fn lemma_entries_view_keys(entries: Seq<(String, Value)>, n: nat, key: Seq<char>)
    requires
        n <= entries.len(),
    ensures
        entries_view(entries, n).contains_key(key) <==> exists|i: int|
            0 <= i < n && (#[trigger] entries[i]).0@ == key,
    decreases n,
{
    if n > 0 {
        lemma_entries_view_keys(entries, (n - 1) as nat, key);
        let last = entries[n - 1];
        assert(entries_view(entries, n) == entries_view(entries, (n - 1) as nat).insert(
            last.0@,
            last.1@,
        ));
        if entries_view(entries, n).contains_key(key) {
            if last.0@ == key {
                assert(0 <= n - 1 < n && entries[n - 1].0@ == key);
            } else {
                let i = choose|i: int| 0 <= i < n - 1 && (#[trigger] entries[i]).0@ == key;
                assert(0 <= i < n && entries[i].0@ == key);
            }
        }
        if exists|i: int| 0 <= i < n && (#[trigger] entries[i]).0@ == key {
            let i = choose|i: int| 0 <= i < n && (#[trigger] entries[i]).0@ == key;
            if i < n - 1 {
                assert(0 <= i < n - 1 && entries[i].0@ == key);
            }
        }
    }
}

/// With distinct keys, each entry's key maps to that entry's value.
pub proof fn lemma_entries_view_value(entries: Seq<(String, Value)>, n: nat, i: int)
    requires
        n <= entries.len(),
        0 <= i < n,
        distinct_keys(entries),
    ensures
        entries_view(entries, n).contains_key(entries[i].0@),
        entries_view(entries, n)[entries[i].0@] == entries[i].1@,
    decreases n,
{
    let last = entries[n - 1];
    assert(entries_view(entries, n) == entries_view(entries, (n - 1) as nat).insert(
        last.0@,
        last.1@,
    ));
    if i < n - 1 {
        lemma_entries_view_value(entries, (n - 1) as nat, i);
        assert(entries[i].0@ != last.0@);
    }
}

/// With distinct keys, the map has as many keys as there are entries.
pub proof fn lemma_entries_view_len(entries: Seq<(String, Value)>, n: nat)
    requires
        n <= entries.len(),
        distinct_keys(entries),
    ensures
        entries_view(entries, n).dom().finite(),
        entries_view(entries, n).dom().len() == n,
    decreases n,
{
    if n > 0 {
        lemma_entries_view_len(entries, (n - 1) as nat);
        lemma_entries_view_keys(entries, (n - 1) as nat, entries[n - 1].0@);
        let last = entries[n - 1];
        assert(entries_view(entries, n) == entries_view(entries, (n - 1) as nat).insert(
            last.0@,
            last.1@,
        ));
        assert(!entries_view(entries, (n - 1) as nat).contains_key(last.0@)) by {
            if exists|i: int| 0 <= i < n - 1 && (#[trigger] entries[i]).0@ == last.0@ {
                let i = choose|i: int| 0 <= i < n - 1 && (#[trigger] entries[i]).0@ == last.0@;
                assert(entries[i].0@ != entries[n - 1].0@);
            }
        }
    } else {
        assert(entries_view(entries, n) == Map::<Seq<char>, Json>::empty());
    }
}

/// Replacing the value of entry `i`, under the same key, is an insert.
pub proof fn lemma_entries_view_update(
    entries: Seq<(String, Value)>,
    n: nat,
    i: int,
    key: String,
    value: Value,
)
    requires
        n <= entries.len(),
        0 <= i < entries.len(),
        distinct_keys(entries),
        key@ == entries[i].0@,
    ensures
        distinct_keys(entries.update(i, (key, value))),
        i < n ==> entries_view(entries.update(i, (key, value)), n) == entries_view(
            entries,
            n,
        ).insert(key@, value@),
        i >= n ==> entries_view(entries.update(i, (key, value)), n) == entries_view(entries, n),
    decreases n,
{
    let updated = entries.update(i, (key, value));
    assert forall|a: int, b: int| 0 <= a < b < updated.len() implies updated[a].0@
        != updated[b].0@ by {
        assert(entries[a].0@ != entries[b].0@);
    }
    if n > 0 {
        lemma_entries_view_update(entries, (n - 1) as nat, i, key, value);
        let before = entries_view(entries, (n - 1) as nat);
        assert(entries_view(entries, n) == before.insert(entries[n - 1].0@, entries[n - 1].1@));
        assert(entries_view(updated, n) == entries_view(updated, (n - 1) as nat).insert(
            updated[n - 1].0@,
            updated[n - 1].1@,
        ));
        if i < n - 1 {
            let last = entries[n - 1];
            assert(entries[i].0@ != last.0@);
            assert(before.insert(key@, value@).insert(last.0@, last.1@) =~= before.insert(
                last.0@,
                last.1@,
            ).insert(key@, value@));
        } else if i == n - 1 {
            let last = entries[n - 1];
            assert(before.insert(key@, value@) =~= before.insert(last.0@, last.1@).insert(
                key@,
                value@,
            ));
        }
    }
}

impl Object {
    #[verifier::type_invariant]
    spec fn well_formed(&self) -> bool {
        distinct_keys(self.entries@)
    }

    /// The members, in the order in which they are kept.
    pub closed spec fn entries(&self) -> Seq<(String, Value)> {
        self.entries@
    }

    /// An object without members.
    pub fn new() -> (o: Object)
        ensures
            o@ == Map::<Seq<char>, Json>::empty(),
            o.entries().len() == 0,
    {
        Object { entries: Vec::new() }
    }

    /// The number of members.
    pub fn len(&self) -> (n: usize)
        ensures
            self@.dom().finite(),
            n == self@.dom().len(),
            n == self.entries().len(),
    {
        proof {
            use_type_invariant(self);
            lemma_entries_view_len(self.entries@, self.entries@.len());
        }
        self.entries.len()
    }

    /// The members as they are kept: no key twice, and together they make up
    /// the object.
    pub fn members(&self) -> (m: &Vec<(String, Value)>)
        ensures
            m@ == self.entries(),
            distinct_keys(m@),
            entries_view(m@, m@.len()) == self@,
    {
        proof {
            use_type_invariant(self);
        }
        &self.entries
    }

    /// The members themselves: no key twice, and together they make up the
    /// object.
    pub fn into_members(self) -> (m: Vec<(String, Value)>)
        ensures
            m@ == self.entries(),
            distinct_keys(m@),
            entries_view(m@, m@.len()) == self@,
    {
        proof {
            use_type_invariant(&self);
        }
        self.entries
    }

    /// The value stored under `key`, if there is one.
    pub fn get(&self, key: &str) -> (r: Option<&Value>)
        ensures
            match r {
                Some(v) => self@.contains_key(key@) && v@ == self@[key@],
                None => !self@.contains_key(key@),
            },
    {
        proof {
            use_type_invariant(self);
        }
        let wanted = key.to_owned();
        let n = self.entries.len();
        let mut i: usize = 0;
        while i < n
            invariant
                i <= n,
                n == self.entries@.len(),
                wanted@ == key@,
                distinct_keys(self.entries@),
                forall|j: int| 0 <= j < i ==> (#[trigger] self.entries@[j]).0@ != key@,
            decreases n - i,
        {
            if self.entries[i].0 == wanted {
                proof {
                    lemma_entries_view_value(self.entries@, n as nat, i as int);
                }
                return Some(&self.entries[i].1);
            }
            i += 1;
        }
        proof {
            lemma_entries_view_keys(self.entries@, n as nat, key@);
        }
        None
    }

    /// Stores `value` under `key`, in place of any value stored there before.
    pub fn insert(&mut self, key: String, value: Value)
        ensures
            final(self)@ == old(self)@.insert(key@, value@),
    {
        proof {
            use_type_invariant(&*self);
        }
        let mut entries: Vec<(String, Value)> = Vec::new();
        std::mem::swap(&mut entries, &mut self.entries);
        let n = entries.len();
        let mut i: usize = 0;
        let mut found = false;
        while i < n && !found
            invariant
                i <= n,
                n == entries@.len(),
                entries@ == old(self).entries@,
                found ==> i < n && entries@[i as int].0@ == key@,
                forall|j: int| 0 <= j < i ==> (#[trigger] entries@[j]).0@ != key@,
            decreases n - i + (if found { 0int } else { 1int }),
        {
            if entries[i].0 == key {
                found = true;
            } else {
                i += 1;
            }
        }
        if found {
            proof {
                lemma_entries_view_update(entries@, n as nat, i as int, key, value);
            }
            entries.set(i, (key, value));
        } else {
            proof {
                let grown = entries@.push((key, value));
                lemma_entries_view_prefix(entries@, grown, n as nat);
                assert forall|a: int, b: int| 0 <= a < b < grown.len() implies grown[a].0@
                    != grown[b].0@ by {
                    if b == n {
                        assert(entries@[a].0@ != key@);
                    }
                }
            }
            entries.push((key, value));
        }
        std::mem::swap(&mut entries, &mut self.entries);
    }
}

impl Value {
    /// A copy of the whole tree.
    pub fn duplicate(&self) -> (copy: Value)
        ensures
            copy@ == self@,
        decreases self,
    {
        match self {
            Value::Null => Value::Null,
            Value::Boolean(b) => Value::Boolean(*b),
            Value::Number(text) => Value::Number(text.clone()),
            Value::String(text) => Value::String(text.clone()),
            Value::Array(items) => {
                let mut copies: Vec<Value> = Vec::new();
                let mut i: usize = 0;
                while i < items.len()
                    invariant
                        *self == Value::Array(*items),
                        i <= items.len(),
                        copies@.len() == i,
                        forall|j: int| 0 <= j < i ==> (#[trigger] copies@[j])@ == items@[j]@,
                    decreases items.len() - i,
                {
                    proof {
                        vstd::std_specs::vec::axiom_vec_index_decreases(*items, i as int);
                        assert(decreases_to!(*self => self->Array_0));
                    }
                    copies.push(items[i].duplicate());
                    i += 1;
                }
                proof {
                    lemma_elements_view_eq(copies@, items@, items@.len());
                }
                Value::Array(copies)
            },
            Value::Object(object) => Value::Object(object.duplicate()),
        }
    }
}

impl Object {
    /// A copy of the object and of every value in it.
    pub fn duplicate(&self) -> (copy: Object)
        ensures
            copy@ == self@,
        decreases self,
    {
        proof {
            use_type_invariant(self);
        }
        let mut copies: Vec<(String, Value)> = Vec::new();
        let mut i: usize = 0;
        while i < self.entries.len()
            invariant
                i <= self.entries.len(),
                copies@.len() == i,
                forall|j: int|
                    0 <= j < i ==> (#[trigger] copies@[j]).0@ == self.entries@[j].0@ && copies@[j].1@
                        == self.entries@[j].1@,
            decreases self.entries.len() - i,
        {
            let entry = &self.entries[i];
            proof {
                vstd::std_specs::vec::axiom_vec_index_decreases(self.entries, i as int);
            }
            copies.push((entry.0.clone(), entry.1.duplicate()));
            i += 1;
        }
        proof {
            lemma_entries_view_eq(copies@, self.entries@, self.entries@.len());
            assert forall|a: int, b: int| 0 <= a < b < copies@.len() implies copies@[a].0@
                != copies@[b].0@ by {
                assert(self.entries@[a].0@ != self.entries@[b].0@);
            }
        }
        Object { entries: copies }
    }
}

impl Value {
    /// Whether the two trees stand for the same JSON value: arrays element
    /// by element, objects member by member in whatever order they are kept,
    /// numbers by their numerals (`1` and `1.0` differ).
    pub fn same_as(&self, other: &Value) -> (same: bool)
        ensures
            same == (self@ == other@),
        decreases self,
    {
        match (self, other) {
            (Value::Null, Value::Null) => true,
            (Value::Boolean(a), Value::Boolean(b)) => *a == *b,
            (Value::Number(a), Value::Number(b)) => *a == *b,
            (Value::String(a), Value::String(b)) => *a == *b,
            (Value::Array(a), Value::Array(b)) => {
                proof {
                    lemma_elements_view_index(a@, a@.len());
                    lemma_elements_view_index(b@, b@.len());
                }
                if a.len() != b.len() {
                    return false;
                }
                let mut i: usize = 0;
                while i < a.len()
                    invariant
                        *self == Value::Array(*a),
                        *other == Value::Array(*b),
                        i <= a.len(),
                        a.len() == b.len(),
                        forall|j: int| 0 <= j < i ==> (#[trigger] a@[j])@ == b@[j]@,
                        elements_view(a@, a@.len()).len() == a@.len(),
                        elements_view(b@, b@.len()).len() == b@.len(),
                        forall|j: int|
                            0 <= j < a@.len() ==> (#[trigger] elements_view(a@, a@.len())[j])
                                == a@[j]@,
                        forall|j: int|
                            0 <= j < b@.len() ==> (#[trigger] elements_view(b@, b@.len())[j])
                                == b@[j]@,
                    decreases a.len() - i,
                {
                    proof {
                        vstd::std_specs::vec::axiom_vec_index_decreases(*a, i as int);
                        assert(decreases_to!(*self => self->Array_0));
                    }
                    if !a[i].same_as(&b[i]) {
                        assert(elements_view(a@, a@.len())[i as int] != elements_view(
                            b@,
                            b@.len(),
                        )[i as int]);
                        return false;
                    }
                    i += 1;
                }
                proof {
                    lemma_elements_view_eq(a@, b@, a@.len());
                }
                true
            },
            (Value::Object(a), Value::Object(b)) => a.same_as(b),
            _ => false,
        }
    }
}

impl Object {
    /// Whether the two objects have the same keys with the same values, in
    /// whatever order they are kept.
    pub fn same_as(&self, other: &Object) -> (same: bool)
        ensures
            same == (self@ == other@),
        decreases self,
    {
        proof {
            use_type_invariant(self);
        }
        let n = self.len();
        if n != other.len() {
            return false;
        }
        let mut i: usize = 0;
        while i < n
            invariant
                i <= n,
                n == self.entries@.len(),
                distinct_keys(self.entries@),
                self@.dom().finite(),
                other@.dom().finite(),
                self@.dom().len() == n,
                other@.dom().len() == n,
                forall|j: int|
                    0 <= j < i ==> other@.contains_key((#[trigger] self.entries@[j]).0@)
                        && other@[self.entries@[j].0@] == self.entries@[j].1@,
            decreases n - i,
        {
            let entry = &self.entries[i];
            proof {
                vstd::std_specs::vec::axiom_vec_index_decreases(self.entries, i as int);
                lemma_entries_view_value(self.entries@, n as nat, i as int);
            }
            let same = match other.get(entry.0.as_str()) {
                Some(value) => entry.1.same_as(value),
                None => false,
            };
            if !same {
                return false;
            }
            i += 1;
        }
        proof {
            assert forall|key: Seq<char>| #[trigger]
                self@.contains_key(key) implies other@.contains_key(key) && other@[key]
                == self@[key] by {
                lemma_entries_view_keys(self.entries@, n as nat, key);
                let j = choose|j: int| 0 <= j < n && (#[trigger] self.entries@[j]).0@ == key;
                lemma_entries_view_value(self.entries@, n as nat, j);
            }
            assert forall|key: Seq<char>| self@.dom().contains(key) implies other@.dom().contains(
                key,
            ) by {
                assert(self@.contains_key(key));
            }
            assert(self@.dom().subset_of(other@.dom()));
            lemma_subset_equality(self@.dom(), other@.dom());
            assert(self@ =~= other@);
        }
        true
    }
}

impl PartialEq for Value {
    fn eq(&self, other: &Value) -> (same: bool) {
        self.same_as(other)
    }
}

impl PartialEqSpecImpl for Value {
    open spec fn obeys_eq_spec() -> bool {
        true
    }

    open spec fn eq_spec(&self, other: &Value) -> bool {
        self@ == other@
    }
}

impl PartialEq for Object {
    fn eq(&self, other: &Object) -> (same: bool) {
        self.same_as(other)
    }
}

impl PartialEqSpecImpl for Object {
    open spec fn obeys_eq_spec() -> bool {
        true
    }

    open spec fn eq_spec(&self, other: &Object) -> bool {
        self@ == other@
    }
}

impl Clone for Value {
    fn clone(&self) -> (copy: Value)
        ensures
            copy@ == self@,
    {
        self.duplicate()
    }
}

impl Clone for Object {
    fn clone(&self) -> (copy: Object)
        ensures
            copy@ == self@,
    {
        self.duplicate()
    }
}

} // verus!
