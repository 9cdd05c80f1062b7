use vstd::prelude::*;
use crate::search::{first_match, lemma_first_match_at, lemma_first_match_none, lemma_first_match_props};
use crate::text::{chars_lt, str_eq, str_lt, lemma_chars_lt_transitive, lemma_chars_lt_total, lemma_chars_lt_irreflexive};

verus! {

/// A JSON number as a parser produces it: a non-negative integer, a negative integer,
/// or any other number (held by the bit pattern of its IEEE-754 double).
#[derive(Clone, Copy, Debug, PartialEq, Eq, Structural)]
pub enum JsonNumber {
    PosInt(u64),
    NegInt(i64),
    Float(u64),
}

/// A JSON value.
#[derive(Debug)]
pub enum Json {
    Null,
    Bool(bool),
    Number(JsonNumber),
    Str(String),
    Array(Vec<Json>),
    Object(JsonMap),
}

/// A JSON object: its members, kept in ascending order of key with no key twice.
#[derive(Debug)]
pub struct JsonMap {
    entries: Vec<(String, Json)>,
}

/// The mathematical value of a JSON value.
pub enum JV {
    Null,
    Bool(bool),
    Number(JsonNumber),
    Str(Seq<char>),
    Array(Seq<JV>),
    Object(Seq<(Seq<char>, JV)>),
}

impl View for Json {
    type V = JV;

    open spec fn view(&self) -> JV {
        json_view(*self)
    }
}

/// The mathematical value of `j`.
pub open spec fn json_view(j: Json) -> JV
    decreases j,
{
    match j {
        Json::Null => JV::Null,
        Json::Bool(b) => JV::Bool(b),
        Json::Number(n) => JV::Number(n),
        Json::Str(s) => JV::Str(s@),
        Json::Array(v) => JV::Array(elems_view(v@)),
        Json::Object(m) => JV::Object(map_view(m)),
    }
}

impl View for JsonMap {
    type V = Seq<(Seq<char>, JV)>;

    closed spec fn view(&self) -> Seq<(Seq<char>, JV)> {
        map_view(*self)
    }
}

/// The members of `m`, as values.
pub closed spec fn map_view(m: JsonMap) -> Seq<(Seq<char>, JV)>
    decreases m,
{
    members_view(m.entries@)
}

/// The views of array elements.
pub open spec fn elems_view(s: Seq<Json>) -> Seq<JV>
    decreases s,
{
    if s.len() == 0 {
        Seq::empty()
    } else {
        elems_view(s.drop_last()).push(json_view(s.last()))
    }
}

/// The views of object members.
pub closed spec fn members_view(s: Seq<(String, Json)>) -> Seq<(Seq<char>, JV)>
    decreases s,
{
    if s.len() == 0 {
        Seq::empty()
    } else {
        members_view(s.drop_last()).push((s.last().0@, json_view(s.last().1)))
    }
}

/// `json_view` unfolded by one level.
pub broadcast proof fn lemma_json_view(j: Json)
    ensures
        #[trigger] json_view(j) == match j {
            Json::Null => JV::Null,
            Json::Bool(b) => JV::Bool(b),
            Json::Number(n) => JV::Number(n),
            Json::Str(s) => JV::Str(s@),
            Json::Array(v) => JV::Array(elems_view(v@)),
            Json::Object(m) => JV::Object(m@),
        },
{
}

/// `map_view` unfolded.
broadcast proof fn lemma_map_view(m: JsonMap)
    ensures
        #[trigger] map_view(m) == members_view(m.entries@),
{
}

/// Length and elements of `elems_view`.
pub broadcast proof fn lemma_elems_view(s: Seq<Json>)
    ensures
        (#[trigger] elems_view(s)).len() == s.len(),
        forall|i: int| 0 <= i < s.len() ==> elems_view(s)[i] == s[i]@,
    decreases s.len(),
{
    if s.len() > 0 {
        lemma_elems_view(s.drop_last());
    }
}

/// Length and members of `members_view`.
pub broadcast proof fn lemma_members_view(s: Seq<(String, Json)>)
    ensures
        (#[trigger] members_view(s)).len() == s.len(),
        forall|i: int| 0 <= i < s.len() ==> members_view(s)[i] == (s[i].0@, s[i].1@),
    decreases s.len(),
{
    if s.len() > 0 {
        lemma_members_view(s.drop_last());
    }
}

/// Index of the member with key `k`, or -1.
pub open spec fn key_index(m: Seq<(Seq<char>, JV)>, k: Seq<char>) -> int {
    first_match(m, |e: (Seq<char>, JV)| e.0 == k)
}

/// The value of the member with key `k`.
pub open spec fn members_get(m: Seq<(Seq<char>, JV)>, k: Seq<char>) -> Option<JV> {
    let i = key_index(m, k);
    if i < 0 {
        None
    } else {
        Some(m[i].1)
    }
}

/// Position at which a member with key `k` belongs in ascending key order.
pub open spec fn insert_pos(m: Seq<(Seq<char>, JV)>, k: Seq<char>) -> int {
    first_match(m, |e: (Seq<char>, JV)| !chars_lt(e.0, k))
}

/// The members after `insert(k, v)`: the value replaced where `k` is a key, else a new member
/// placed in key order.
pub open spec fn members_insert(m: Seq<(Seq<char>, JV)>, k: Seq<char>, v: JV) -> Seq<
    (Seq<char>, JV),
> {
    let i = insert_pos(m, k);
    if i < 0 {
        m.push((k, v))
    } else if m[i].0 == k {
        m.update(i, (k, v))
    } else {
        m.insert(i, (k, v))
    }
}

/// The members after `remove(k)`.
pub open spec fn members_remove(m: Seq<(Seq<char>, JV)>, k: Seq<char>) -> Seq<(Seq<char>, JV)> {
    let i = key_index(m, k);
    if i < 0 {
        m
    } else {
        m.remove(i)
    }
}

/// Keys in strictly ascending order (so none twice).
pub open spec fn keys_sorted(m: Seq<(Seq<char>, JV)>) -> bool {
    forall|i: int, j: int| 0 <= i < j < m.len() ==> chars_lt(m[i].0, m[j].0)
}

/// The keys of the members, in order.
pub open spec fn keys_of(m: Seq<(Seq<char>, JV)>) -> Seq<Seq<char>> {
    m.map_values(|e: (Seq<char>, JV)| e.0)
}

/// Whether some member has key `k`.
pub open spec fn has_key(m: Seq<(Seq<char>, JV)>, k: Seq<char>) -> bool {
    exists|j: int| 0 <= j < m.len() && m[j].0 == k
}

pub proof fn lemma_key_index(m: Seq<(Seq<char>, JV)>, k: Seq<char>)
    ensures
        key_index(m, k) == -1 <==> !has_key(m, k),
        key_index(m, k) >= 0 ==> key_index(m, k) < m.len() && m[key_index(m, k)].0 == k,
        members_get(m, k) is None <==> !has_key(m, k),
{
    lemma_first_match_props(m, |e: (Seq<char>, JV)| e.0 == k);
}

/// Removing a key leaves absent keys absent.
pub proof fn lemma_remove_keeps_absent(m: Seq<(Seq<char>, JV)>, k: Seq<char>, k2: Seq<char>)
    requires
        !has_key(m, k2),
    ensures
        !has_key(members_remove(m, k), k2),
{
    lemma_key_index(m, k);
    let i = key_index(m, k);
    if i >= 0 {
        let r = m.remove(i);
        assert forall|j: int| 0 <= j < r.len() implies r[j].0 != k2 by {
            if j < i {
                assert(r[j] == m[j]);
            } else {
                assert(r[j] == m[j + 1]);
            }
        }
    }
}

/// Removing a key from an object with sorted keys leaves it sorted and without that key.
pub proof fn lemma_remove_sorted(m: Seq<(Seq<char>, JV)>, k: Seq<char>)
    requires
        keys_sorted(m),
    ensures
        keys_sorted(members_remove(m, k)),
        !has_key(members_remove(m, k), k),
{
    lemma_key_index(m, k);
    let i = key_index(m, k);
    if i >= 0 {
        let r = m.remove(i);
        assert forall|a: int, b: int| 0 <= a < b < r.len() implies chars_lt(r[a].0, r[b].0) by {
            let a0 = if a < i { a } else { a + 1 };
            let b0 = if b < i { b } else { b + 1 };
            assert(r[a] == m[a0]);
            assert(r[b] == m[b0]);
        }
        assert forall|j: int| 0 <= j < r.len() implies r[j].0 != k by {
            if j < i {
                assert(r[j] == m[j]);
                assert(chars_lt(m[j].0, m[i].0));
                lemma_chars_lt_irreflexive(k);
            } else {
                assert(r[j] == m[j + 1]);
                assert(chars_lt(m[i].0, m[j + 1].0));
                lemma_chars_lt_irreflexive(k);
            }
        }
    }
}

/// What `members_insert` does: the key is then present with that value, no other key is
/// added, and sorted keys stay sorted.
pub proof fn lemma_insert_props(m: Seq<(Seq<char>, JV)>, k: Seq<char>, v: JV)
    ensures
        members_get(members_insert(m, k, v), k) == Some(v),
        forall|k2: Seq<char>|
            has_key(members_insert(m, k, v), k2) <==> (has_key(m, k2) || k2 == k),
        keys_sorted(m) ==> keys_sorted(members_insert(m, k, v)),
{
    let p = |e: (Seq<char>, JV)| !chars_lt(e.0, k);
    lemma_first_match_props(m, p);
    let i = insert_pos(m, k);
    let r = members_insert(m, k, v);
    lemma_chars_lt_irreflexive(k);
    if i < 0 {
        assert(r == m.push((k, v)));
        assert forall|j: int| 0 <= j < m.len() implies r[j].0 != k by {
            assert(chars_lt(m[j].0, k));
        }
        lemma_first_match_at(r, |e: (Seq<char>, JV)| e.0 == k, m.len() as int);
        assert forall|k2: Seq<char>| has_key(r, k2) <==> (has_key(m, k2) || k2 == k) by {
            if has_key(m, k2) {
                let j = choose|j: int| 0 <= j < m.len() && m[j].0 == k2;
                assert(r[j] == m[j]);
            }
            if has_key(r, k2) && k2 != k {
                let j = choose|j: int| 0 <= j < r.len() && r[j].0 == k2;
                assert(r[j] == m[j]);
            }
            if k2 == k {
                assert(r[m.len() as int].0 == k);
            }
        }
        if keys_sorted(m) {
            assert forall|a: int, b: int| 0 <= a < b < r.len() implies chars_lt(r[a].0, r[b].0) by {
                if b == m.len() {
                    assert(chars_lt(m[a].0, k));
                }
            }
        }
    } else if m[i].0 == k {
        assert(r == m.update(i, (k, v)));
        assert forall|j: int| 0 <= j < i implies r[j].0 != k by {
            assert(chars_lt(m[j].0, k));
        }
        lemma_first_match_at(r, |e: (Seq<char>, JV)| e.0 == k, i);
        assert forall|k2: Seq<char>| has_key(r, k2) <==> (has_key(m, k2) || k2 == k) by {
            if has_key(m, k2) {
                let j = choose|j: int| 0 <= j < m.len() && m[j].0 == k2;
                assert(r[j].0 == m[j].0);
            }
            if has_key(r, k2) {
                let j = choose|j: int| 0 <= j < r.len() && r[j].0 == k2;
                assert(r[j].0 == m[j].0);
            }
        }
        if keys_sorted(m) {
            assert forall|a: int, b: int| 0 <= a < b < r.len() implies chars_lt(r[a].0, r[b].0) by {
                assert(r[a].0 == m[a].0);
                assert(r[b].0 == m[b].0);
            }
        }
    } else {
        assert(r == m.insert(i, (k, v)));
        assert forall|j: int| 0 <= j < i implies r[j].0 != k by {
            assert(r[j] == m[j]);
            assert(chars_lt(m[j].0, k));
        }
        lemma_first_match_at(r, |e: (Seq<char>, JV)| e.0 == k, i);
        assert forall|k2: Seq<char>| has_key(r, k2) <==> (has_key(m, k2) || k2 == k) by {
            if has_key(m, k2) {
                let j = choose|j: int| 0 <= j < m.len() && m[j].0 == k2;
                if j < i {
                    assert(r[j] == m[j]);
                } else {
                    assert(r[j + 1] == m[j]);
                }
            }
            if has_key(r, k2) && k2 != k {
                let j = choose|j: int| 0 <= j < r.len() && r[j].0 == k2;
                if j < i {
                    assert(r[j] == m[j]);
                } else {
                    assert(j != i);
                    assert(r[j] == m[j - 1]);
                }
            }
            if k2 == k {
                assert(r[i].0 == k);
            }
        }
        if keys_sorted(m) {
            lemma_chars_lt_total(m[i].0, k);
            assert(chars_lt(k, m[i].0));
            assert forall|a: int, b: int| 0 <= a < b < r.len() implies chars_lt(r[a].0, r[b].0) by {
                if a < i && b < i {
                    assert(r[a] == m[a] && r[b] == m[b]);
                } else if a < i && b == i {
                    assert(r[a] == m[a]);
                    assert(chars_lt(m[a].0, k));
                } else if a < i {
                    assert(r[a] == m[a] && r[b] == m[b - 1]);
                    assert(chars_lt(m[a].0, k));
                    if b - 1 > i {
                        lemma_chars_lt_transitive(k, m[i].0, m[b - 1].0);
                    }
                    lemma_chars_lt_transitive(m[a].0, k, m[b - 1].0);
                } else if a == i {
                    assert(r[b] == m[b - 1]);
                    if b - 1 > i {
                        lemma_chars_lt_transitive(k, m[i].0, m[b - 1].0);
                    }
                } else {
                    assert(r[a] == m[a - 1] && r[b] == m[b - 1]);
                }
            }
        }
    }
}

/// Inserting a key leaves the value of every other key as it was.
pub proof fn lemma_insert_get_other(m: Seq<(Seq<char>, JV)>, k: Seq<char>, v: JV, k2: Seq<char>)
    requires
        k2 != k,
    ensures
        members_get(members_insert(m, k, v), k2) == members_get(m, k2),
{
    let p = |e: (Seq<char>, JV)| !chars_lt(e.0, k);
    let q = |e: (Seq<char>, JV)| e.0 == k2;
    lemma_first_match_props(m, p);
    lemma_first_match_props(m, q);
    let pos = insert_pos(m, k);
    let r = members_insert(m, k, v);
    let j = key_index(m, k2);
    if pos < 0 {
        assert(r == m.push((k, v)));
        if j >= 0 {
            assert forall|a: int| 0 <= a < j implies !q(r[a]) by {
                assert(r[a] == m[a]);
            }
            assert(r[j] == m[j]);
            lemma_first_match_at(r, q, j);
        } else {
            assert forall|a: int| 0 <= a < r.len() implies !q(r[a]) by {
                if a < m.len() {
                    assert(r[a] == m[a]);
                }
            }
            lemma_first_match_none(r, q);
        }
    } else if m[pos].0 == k {
        assert(r == m.update(pos, (k, v)));
        if j >= 0 {
            assert forall|a: int| 0 <= a < j implies !q(r[a]) by {
                if a != pos {
                    assert(r[a] == m[a]);
                }
            }
            assert(j != pos);
            assert(r[j] == m[j]);
            lemma_first_match_at(r, q, j);
        } else {
            assert forall|a: int| 0 <= a < r.len() implies !q(r[a]) by {
                if a != pos {
                    assert(r[a] == m[a]);
                }
            }
            lemma_first_match_none(r, q);
        }
    } else {
        assert(r == m.insert(pos, (k, v)));
        if j >= 0 {
            if j < pos {
                assert forall|a: int| 0 <= a < j implies !q(r[a]) by {
                    assert(r[a] == m[a]);
                }
                assert(r[j] == m[j]);
                lemma_first_match_at(r, q, j);
            } else {
                assert forall|a: int| 0 <= a < j + 1 implies !q(r[a]) by {
                    if a < pos {
                        assert(r[a] == m[a]);
                    } else if a > pos {
                        assert(r[a] == m[a - 1]);
                    }
                }
                assert(r[j + 1] == m[j]);
                lemma_first_match_at(r, q, j + 1);
            }
        } else {
            assert forall|a: int| 0 <= a < r.len() implies !q(r[a]) by {
                if a < pos {
                    assert(r[a] == m[a]);
                } else if a > pos {
                    assert(r[a] == m[a - 1]);
                }
            }
            lemma_first_match_none(r, q);
        }
    }
}

/// Of members made from pairs, a key has the value of its last pair.
pub proof fn lemma_members_from_get(pairs: Seq<(Seq<char>, JV)>, j: int)
    requires
        0 <= j < pairs.len(),
        forall|i: int| j < i < pairs.len() ==> (#[trigger] pairs[i]).0 != pairs[j].0,
    ensures
        members_get(members_from(pairs), pairs[j].0) == Some(pairs[j].1),
    decreases pairs.len(),
{
    let last = pairs.last();
    let prev = pairs.drop_last();
    if j == pairs.len() - 1 {
        lemma_insert_props(members_from(prev), last.0, last.1);
    } else {
        assert forall|i: int| j < i < prev.len() implies (#[trigger] prev[i]).0 != prev[j].0 by {
            assert(prev[i] == pairs[i]);
        }
        lemma_members_from_get(prev, j);
        assert(pairs[pairs.len() - 1] == last);
        assert(prev[j] == pairs[j]);
        lemma_insert_get_other(members_from(prev), last.0, last.1, pairs[j].0);
    }
}

/// Inserting the same member twice is inserting it once.
pub proof fn lemma_insert_twice(m: Seq<(Seq<char>, JV)>, k: Seq<char>, v: JV)
    ensures
        members_insert(members_insert(m, k, v), k, v) == members_insert(m, k, v),
{
    let p = |e: (Seq<char>, JV)| !chars_lt(e.0, k);
    lemma_first_match_props(m, p);
    let i = insert_pos(m, k);
    let r = members_insert(m, k, v);
    lemma_chars_lt_irreflexive(k);
    let at = if i < 0 { m.len() as int } else { i };
    assert(r[at] == (k, v));
    assert forall|j: int| 0 <= j < at implies !p(r[j]) by {
        if i >= 0 && m[i].0 != k {
            assert(r[j] == m[j]);
        } else {
            assert(r[j].0 == m[j].0);
        }
    }
    lemma_first_match_at(r, p, at);
    assert(members_insert(r, k, v) =~= r);
}

impl JV {
    /// `v.get(k)`: the member `k` of an object; `None` for a missing key or a non-object.
    pub open spec fn get(self, k: Seq<char>) -> Option<JV> {
        match self {
            JV::Object(m) => members_get(m, k),
            _ => None,
        }
    }

    /// `v[k]`: the member `k` of an object, `Null` where `get` gives `None`.
    pub open spec fn at(self, k: Seq<char>) -> JV {
        match self.get(k) {
            Some(x) => x,
            None => JV::Null,
        }
    }

    pub open spec fn as_str(self) -> Option<Seq<char>> {
        match self {
            JV::Str(s) => Some(s),
            _ => None,
        }
    }

    pub open spec fn as_bool(self) -> Option<bool> {
        match self {
            JV::Bool(b) => Some(b),
            _ => None,
        }
    }

    /// `v.as_u64()`: a non-negative integer that fits in `u64`.
    pub open spec fn as_u64(self) -> Option<u64> {
        match self {
            JV::Number(JsonNumber::PosInt(n)) => Some(n),
            _ => None,
        }
    }

    pub open spec fn as_array(self) -> Option<Seq<JV>> {
        match self {
            JV::Array(a) => Some(a),
            _ => None,
        }
    }

    pub open spec fn is_null(self) -> bool {
        self is Null
    }

    /// Every object inside `self` (itself included) has its keys in ascending order.
    pub open spec fn canonical(self) -> bool
        decreases self,
    {
        match self {
            JV::Array(a) => forall|i: int| 0 <= i < a.len() ==> (#[trigger] a[i]).canonical(),
            JV::Object(m) => keys_sorted(m) && forall|i: int|
                0 <= i < m.len() ==> (#[trigger] m[i]).1.canonical(),
            _ => true,
        }
    }
}

impl JsonMap {
    #[verifier::type_invariant]
    spec fn sorted(self) -> bool {
        forall|i: int, j: int|
            0 <= i < j < self.entries@.len() ==> chars_lt(
                self.entries@[i].0@,
                self.entries@[j].0@,
            )
    }

    /// An empty object.
    pub fn new() -> (m: JsonMap)
        ensures
            m@ == Seq::<(Seq<char>, JV)>::empty(),
    {
        broadcast use {lemma_elems_view, lemma_members_view, lemma_map_view, lemma_json_view};

        let m = JsonMap { entries: Vec::new() };
        assert(m@ =~= Seq::<(Seq<char>, JV)>::empty());
        m
    }

    /// The number of members; their keys are in ascending order.
    pub fn len(&self) -> (n: usize)
        ensures
            n == self@.len(),
            keys_sorted(self@),
    {
        broadcast use {lemma_elems_view, lemma_members_view, lemma_map_view, lemma_json_view};

        proof {
            use_type_invariant(self);
        }
        self.entries.len()
    }

    /// Whether the object has no member.
    pub fn is_empty(&self) -> (b: bool)
        ensures
            b == (self@.len() == 0),
    {
        broadcast use {lemma_elems_view, lemma_members_view, lemma_map_view, lemma_json_view};

        self.entries.len() == 0
    }

    /// The key of the `i`-th member.
    pub fn key_at(&self, i: usize) -> (k: &String)
        requires
            i < self@.len(),
        ensures
            k@ == self@[i as int].0,
    {
        broadcast use {lemma_elems_view, lemma_members_view, lemma_map_view, lemma_json_view};

        &self.entries[i].0
    }

    /// The value of the `i`-th member.
    pub fn value_at(&self, i: usize) -> (v: &Json)
        requires
            i < self@.len(),
        ensures
            v@ == self@[i as int].1,
    {
        broadcast use {lemma_elems_view, lemma_members_view, lemma_map_view, lemma_json_view};

        &self.entries[i].1
    }

    /// Position of the member with key `k`.
    #[verifier::loop_isolation(false)]
    fn position(&self, k: &str) -> (r: Option<usize>)
        ensures
            r is None <==> key_index(self@, k@) == -1,
            r matches Some(i) ==> i == key_index(self@, k@) && i < self@.len(),
    {
        broadcast use {lemma_elems_view, lemma_members_view, lemma_map_view, lemma_json_view};

        let n = self.entries.len();
        let mut i: usize = 0;
        while i < n
            invariant
                i <= n,
                n == self@.len(),
                n == self.entries@.len(),
                forall|j: int| 0 <= j < i ==> self@[j].0 != k@,
            decreases n - i,
        {
            if str_eq(self.entries[i].0.as_str(), k) {
                proof {
                    lemma_first_match_at(self@, |e: (Seq<char>, JV)| e.0 == k@, i as int);
                }
                return Some(i);
            }
            i = i + 1;
        }
        proof {
            lemma_first_match_none(self@, |e: (Seq<char>, JV)| e.0 == k@);
        }
        None
    }

    /// `m.get(k)`.
    pub fn get(&self, k: &str) -> (r: Option<&Json>)
        ensures
            r is None <==> members_get(self@, k@) is None,
            r matches Some(v) ==> members_get(self@, k@) == Some(v@),
    {
        broadcast use {lemma_elems_view, lemma_members_view, lemma_map_view, lemma_json_view};

        match self.position(k) {
            Some(i) => Some(&self.entries[i].1),
            None => None,
        }
    }

    /// `m.insert(k, v)`: replaces the value of an existing key, else adds the member in key
    /// order.
    #[verifier::loop_isolation(false)]
    pub fn insert(&mut self, k: String, v: Json)
        ensures
            final(self)@ == members_insert(old(self)@, k@, v@),
    {
        broadcast use {lemma_elems_view, lemma_members_view, lemma_map_view, lemma_json_view};

        proof {
            use_type_invariant(&*self);
        }
        let ghost old_entries = self.entries@;
        let ghost m = self@;
        let n = self.entries.len();
        let mut i: usize = 0;
        while i < n
            invariant
                i <= n,
                n == m.len(),
                n == self.entries@.len(),
                self.entries@ == old_entries,
                m == self@,
                m == old(self)@,
                forall|a: int, b: int|
                    0 <= a < b < old_entries.len() ==> chars_lt(old_entries[a].0@, old_entries[b].0@),
                forall|j: int| 0 <= j < i ==> chars_lt(m[j].0, k@),
            decreases n - i,
        {
            if !str_lt(self.entries[i].0.as_str(), k.as_str()) {
                proof {
                    lemma_first_match_at(m, |e: (Seq<char>, JV)| !chars_lt(e.0, k@), i as int);
                }
                assert(insert_pos(m, k@) == i);
                if str_eq(self.entries[i].0.as_str(), k.as_str()) {
                    assert(m[i as int].0 == k@);
                    self.replace_at(i, k, v);
                    assert(self@ == members_insert(m, k@, v@));
                } else {
                    proof {
                        lemma_chars_lt_total(m[i as int].0, k@);
                    }
                    assert(m[i as int].0 != k@);
                    self.insert_at(i, k, v);
                    assert(self@ == m.insert(i as int, (k@, v@)));
                    assert(self@ == members_insert(m, k@, v@));
                }
                return;
            }
            i = i + 1;
        }
        proof {
            lemma_first_match_none(m, |e: (Seq<char>, JV)| !chars_lt(e.0, k@));
        }
        self.insert_at(n, k, v);
    }

    fn replace_at(&mut self, i: usize, k: String, v: Json)
        requires
            i < old(self)@.len(),
            old(self)@[i as int].0 == k@,
        ensures
            final(self)@ == old(self)@.update(i as int, (k@, v@)),
    {
        broadcast use {lemma_elems_view, lemma_members_view, lemma_map_view, lemma_json_view};

        proof {
            use_type_invariant(&*self);
        }
        let ghost old_m = self@;
        let ghost old_entries = self.entries@;
        let mut entries = Vec::new();
        std::mem::swap(&mut entries, &mut self.entries);
        entries.set(i, (k, v));
        assert(forall|a: int, b: int|
            0 <= a < b < entries@.len() ==> chars_lt(entries@[a].0@, entries@[b].0@)) by {
            assert(forall|a: int| 0 <= a < entries@.len() ==> entries@[a].0@ == old_entries[a].0@);
        }
        self.entries = entries;
        assert(self@ =~= old_m.update(i as int, (k@, v@)));
    }

    fn insert_at(&mut self, i: usize, k: String, v: Json)
        requires
            i <= old(self)@.len(),
            forall|j: int| 0 <= j < i ==> chars_lt(old(self)@[j].0, k@),
            i < old(self)@.len() ==> chars_lt(k@, old(self)@[i as int].0),
        ensures
            final(self)@ == old(self)@.insert(i as int, (k@, v@)),
            i == old(self)@.len() ==> final(self)@ == old(self)@.push((k@, v@)),
    {
        broadcast use {lemma_elems_view, lemma_members_view, lemma_map_view, lemma_json_view};

        proof {
            use_type_invariant(&*self);
        }
        let ghost old_m = self@;
        let ghost old_entries = self.entries@;
        let ghost kv = k@;
        let mut entries = Vec::new();
        std::mem::swap(&mut entries, &mut self.entries);
        entries.insert(i, (k, v));
        assert forall|a: int, b: int| 0 <= a < b < entries@.len() implies chars_lt(
            entries@[a].0@,
            entries@[b].0@,
        ) by {
            if a < i && b < i {
            } else if a < i && b == i {
                assert(old_m[a].0 == old_entries[a].0@);
            } else if a < i && b > i {
                assert(old_m[a].0 == old_entries[a].0@);
                assert(entries@[b] == old_entries[b - 1]);
                if b - 1 > i {
                    lemma_chars_lt_transitive(kv, old_entries[i as int].0@, old_entries[b - 1].0@);
                }
                lemma_chars_lt_transitive(old_entries[a].0@, kv, old_entries[b - 1].0@);
            } else if a == i {
                assert(entries@[b] == old_entries[b - 1]);
                if b - 1 > i {
                    lemma_chars_lt_transitive(kv, old_entries[i as int].0@, old_entries[b - 1].0@);
                }
            } else {
                assert(entries@[a] == old_entries[a - 1]);
                assert(entries@[b] == old_entries[b - 1]);
            }
        }
        self.entries = entries;
        assert(self@ =~= old_m.insert(i as int, (kv, v@)));
        assert(i == old_m.len() ==> old_m.insert(i as int, (kv, v@)) =~= old_m.push((kv, v@)));
    }

    /// `m.remove(k)`: takes out the member with key `k`, if any, and returns its value.
    pub fn remove(&mut self, k: &str) -> (r: Option<Json>)
        ensures
            final(self)@ == members_remove(old(self)@, k@),
            r is None <==> members_get(old(self)@, k@) is None,
            r matches Some(v) ==> members_get(old(self)@, k@) == Some(v@),
    {
        broadcast use {lemma_elems_view, lemma_members_view, lemma_map_view, lemma_json_view};

        proof {
            use_type_invariant(&*self);
        }
        match self.position(k) {
            None => None,
            Some(i) => {
                let ghost old_m = self@;
                let ghost old_entries = self.entries@;
                let mut entries = Vec::new();
                std::mem::swap(&mut entries, &mut self.entries);
                let (_key, val) = entries.remove(i);
                assert(forall|a: int, b: int|
                    0 <= a < b < entries@.len() ==> chars_lt(entries@[a].0@, entries@[b].0@)) by {
                    assert(forall|a: int|
                        0 <= a < entries@.len() ==> entries@[a] == if a < i {
                            old_entries[a]
                        } else {
                            old_entries[a + 1]
                        });
                }
                self.entries = entries;
                assert(self@ =~= old_m.remove(i as int));
                Some(val)
            },
        }
    }
}


impl Json {
    /// A copy of the value.
    #[verifier::loop_isolation(false)]
    pub fn deep_clone(&self) -> (r: Json)
        ensures
            r@ == self@,
        decreases self,
    {
        broadcast use {lemma_elems_view, lemma_members_view, lemma_map_view, lemma_json_view};

        match self {
            Json::Null => Json::Null,
            Json::Bool(b) => Json::Bool(*b),
            Json::Number(n) => Json::Number(*n),
            Json::Str(s) => Json::Str(s.clone()),
            Json::Array(a) => {
                let mut out: Vec<Json> = Vec::new();
                let n = a.len();
                let mut i: usize = 0;
                while i < n
                    invariant
                        i <= n,
                        n == a@.len(),
                        out@.len() == i,
                        forall|j: int| 0 <= j < i ==> (#[trigger] out@[j])@ == a@[j]@,
                    decreases n - i,
                {
                    let c = a[i].deep_clone();
                    out.push(c);
                    i = i + 1;
                }
                let r = Json::Array(out);
                assert(r@->Array_0 =~= self@->Array_0);
                r
            },
            Json::Object(m) => {
                proof {
                    use_type_invariant(m);
                }
                let mut out: Vec<(String, Json)> = Vec::new();
                let n = m.entries.len();
                let mut i: usize = 0;
                while i < n
                    invariant
                        i <= n,
                        n == m.entries@.len(),
                        out@.len() == i,
                        forall|j: int|
                            0 <= j < i ==> (#[trigger] out@[j]).0@ == m.entries@[j].0@ && out@[j].1@
                                == m.entries@[j].1@,
                    decreases n - i,
                {
                    let k = m.entries[i].0.clone();
                    let v = m.entries[i].1.deep_clone();
                    out.push((k, v));
                    i = i + 1;
                }
                let copy = JsonMap { entries: out };
                assert(copy@ =~= m@);
                Json::Object(copy)
            },
        }
    }

    /// `a == b` on JSON values.
    #[verifier::loop_isolation(false)]
    pub fn equals(&self, other: &Json) -> (r: bool)
        ensures
            r == (self@ == other@),
        decreases self,
    {
        broadcast use {lemma_elems_view, lemma_members_view, lemma_map_view, lemma_json_view};

        match (self, other) {
            (Json::Null, Json::Null) => true,
            (Json::Bool(a), Json::Bool(b)) => *a == *b,
            (Json::Number(a), Json::Number(b)) => *a == *b,
            (Json::Str(a), Json::Str(b)) => {
                let r = str_eq(a.as_str(), b.as_str());
                assert(r == (self@ == other@));
                r
            },
            (Json::Array(a), Json::Array(b)) => {
                let n = a.len();
                if n != b.len() {
                    assert(self@->Array_0.len() != other@->Array_0.len());
                    return false;
                }
                let mut i: usize = 0;
                while i < n
                    invariant
                        i <= n,
                        n == a@.len(),
                        n == b@.len(),
                        forall|j: int| 0 <= j < i ==> a@[j]@ == b@[j]@,
                    decreases n - i,
                {
                    if !a[i].equals(&b[i]) {
                        assert(self@->Array_0[i as int] != other@->Array_0[i as int]);
                        return false;
                    }
                    i = i + 1;
                }
                assert(self@->Array_0 =~= other@->Array_0);
                true
            },
            (Json::Object(a), Json::Object(b)) => {
                let n = a.entries.len();
                if n != b.entries.len() {
                    assert(a@.len() != b@.len());
                    return false;
                }
                let mut i: usize = 0;
                while i < n
                    invariant
                        i <= n,
                        n == a.entries@.len(),
                        n == b.entries@.len(),
                        forall|j: int| 0 <= j < i ==> a@[j] == b@[j],
                    decreases n - i,
                {
                    if a.entries[i].0 != b.entries[i].0 {
                        assert(a@[i as int] != b@[i as int]);
                        return false;
                    }
                    if !a.entries[i].1.equals(&b.entries[i].1) {
                        assert(a@[i as int] != b@[i as int]);
                        return false;
                    }
                    i = i + 1;
                }
                assert(a@ =~= b@);
                assert(self@ == other@);
                true
            },
            _ => {
                assert(self@ != other@);
                false
            },
        }
    }

    /// A JSON string holding `s`.
    pub fn from_str(s: &str) -> (r: Json)
        ensures
            r@ == JV::Str(s@),
    {
        broadcast use {lemma_elems_view, lemma_members_view, lemma_map_view, lemma_json_view};

        Json::Str(s.to_owned())
    }

    /// `json!(o)` for an optional string: the string, or `null`.
    pub fn from_opt_string(o: &Option<String>) -> (r: Json)
        ensures
            r@ == opt_str_json(opt_view(*o)),
    {
        broadcast use {lemma_elems_view, lemma_members_view, lemma_map_view, lemma_json_view};

        match o {
            Some(s) => Json::Str(s.clone()),
            None => Json::Null,
        }
    }

    /// An object with the given members, inserted in order.
    #[verifier::loop_isolation(false)]
    pub fn object(members: Vec<(String, Json)>) -> (r: Json)
        ensures
            r@ == JV::Object(members_from(pairs_view(members@))),
    {
        broadcast use {lemma_elems_view, lemma_members_view, lemma_map_view, lemma_json_view};

        let mut m = JsonMap::new();
        let ghost all = pairs_view(members@);
        let ghost orig = members@;
        let mut rest = members;
        let n = rest.len();
        let mut i: usize = 0;
        assert(all.take(0) =~= Seq::<(Seq<char>, JV)>::empty());
        assert(orig.skip(0) =~= orig);
        while i < n
            invariant
                i <= n,
                n == orig.len(),
                all == pairs_view(orig),
                rest@ == orig.skip(i as int),
                m@ == members_from(all.take(i as int)),
            decreases n - i,
        {
            let (k, v) = rest.remove(0);
            assert(all.take(i + 1).drop_last() =~= all.take(i as int));
            assert(orig.skip(i + 1) =~= orig.skip(i as int).drop_first());
            m.insert(k, v);
            i = i + 1;
        }
        assert(all.take(n as int) =~= all);
        Json::Object(m)
    }

    /// `v.get(k)`.
    pub fn get(&self, k: &str) -> (r: Option<&Json>)
        ensures
            r is None <==> self@.get(k@) is None,
            r matches Some(v) ==> self@.get(k@) == Some(v@),
    {
        broadcast use {lemma_elems_view, lemma_members_view, lemma_map_view, lemma_json_view};

        match self {
            Json::Object(m) => m.get(k),
            _ => None,
        }
    }

    /// `v.as_str()`.
    pub fn as_str(&self) -> (r: Option<&String>)
        ensures
            r is None <==> self@.as_str() is None,
            r matches Some(s) ==> self@.as_str() == Some(s@),
    {
        broadcast use {lemma_elems_view, lemma_members_view, lemma_map_view, lemma_json_view};

        match self {
            Json::Str(s) => Some(s),
            _ => None,
        }
    }

    /// `v.as_bool()`.
    pub fn as_bool(&self) -> (r: Option<bool>)
        ensures
            r == self@.as_bool(),
    {
        broadcast use {lemma_elems_view, lemma_members_view, lemma_map_view, lemma_json_view};

        match self {
            Json::Bool(b) => Some(*b),
            _ => None,
        }
    }

    /// `v.as_u64()`.
    pub fn as_u64(&self) -> (r: Option<u64>)
        ensures
            r == self@.as_u64(),
    {
        broadcast use {lemma_elems_view, lemma_members_view, lemma_map_view, lemma_json_view};

        match self {
            Json::Number(JsonNumber::PosInt(n)) => Some(*n),
            _ => None,
        }
    }

    /// `v.as_array()`.
    pub fn as_array(&self) -> (r: Option<&Vec<Json>>)
        ensures
            r is None <==> self@.as_array() is None,
            r matches Some(a) ==> self@.as_array() == Some(elems_view(a@)),
    {
        broadcast use {lemma_elems_view, lemma_members_view, lemma_map_view, lemma_json_view};

        match self {
            Json::Array(a) => Some(a),
            _ => None,
        }
    }

    /// `v.is_null()`.
    pub fn is_null(&self) -> (r: bool)
        ensures
            r == self@.is_null(),
    {
        broadcast use {lemma_elems_view, lemma_members_view, lemma_map_view, lemma_json_view};

        match self {
            Json::Null => true,
            _ => false,
        }
    }
}

impl PartialEq for Json {
    fn eq(&self, other: &Json) -> (r: bool) {
        self.equals(other)
    }
}

impl vstd::std_specs::cmp::PartialEqSpecImpl for Json {
    open spec fn obeys_eq_spec() -> bool {
        true
    }

    open spec fn eq_spec(&self, other: &Json) -> bool {
        self@ == other@
    }
}

/// `json!(o)` for an optional string.
pub open spec fn opt_str_json(o: Option<Seq<char>>) -> JV {
    match o {
        Some(s) => JV::Str(s),
        None => JV::Null,
    }
}

/// The view of an optional string.
pub open spec fn opt_view(o: Option<String>) -> Option<Seq<char>> {
    match o {
        Some(s) => Some(s@),
        None => None,
    }
}

/// The views of key/value pairs.
pub open spec fn pairs_view(v: Seq<(String, Json)>) -> Seq<(Seq<char>, JV)> {
    v.map_values(|p: (String, Json)| (p.0@, p.1@))
}

/// The members of an object built by inserting `pairs` in order into an empty one.
pub open spec fn members_from(pairs: Seq<(Seq<char>, JV)>) -> Seq<(Seq<char>, JV)>
    decreases pairs.len(),
{
    if pairs.len() == 0 {
        Seq::empty()
    } else {
        members_insert(members_from(pairs.drop_last()), pairs.last().0, pairs.last().1)
    }
}

} // verus!
