//! The document values that index declarations and index listings are made of:
//! an ordered document type with insertion-order entries and unique keys, and
//! the value kinds that can stand in such a document.

use vstd::prelude::*;

verus! {

/// Spec-level form of a document value: strings as character sequences,
/// documents as ordered key/value sequences.
pub enum ValueModel {
    Int32(i32),
    Int64(i64),
    Boolean(bool),
    Text(Seq<char>),
    Subdoc(Seq<(Seq<char>, ValueModel)>),
    List(Seq<ValueModel>),
}

/// Spec-level form of an ordered document.
pub type DocModel = Seq<(Seq<char>, ValueModel)>;

/// A document value: the subset of the wire format's value kinds that index
/// declarations and index listings use.
#[derive(Debug, PartialEq)]
pub enum Value {
    Int32(i32),
    Int64(i64),
    Boolean(bool),
    Text(String),
    Subdoc(Doc),
    List(Vec<Value>),
}

/// An ordered document: key/value entries in insertion order. Every
/// constructor and method of this type keeps the keys pairwise distinct.
#[derive(Debug, PartialEq)]
pub struct Doc {
    entries: Vec<(String, Value)>,
}

impl Value {
    // The index closures below are total over `int`, so out-of-range indexes
    // map to a fixed filler value; `Seq::new` never reads them.
    pub open spec fn model(self) -> ValueModel
        decreases self,
    {
        match self {
            Value::Int32(n) => ValueModel::Int32(n),
            Value::Int64(n) => ValueModel::Int64(n),
            Value::Boolean(b) => ValueModel::Boolean(b),
            Value::Text(s) => ValueModel::Text(s@),
            Value::Subdoc(d) => ValueModel::Subdoc(d.model()),
            Value::List(a) => ValueModel::List(
                Seq::new(
                    a@.len(),
                    |i: int|
                        if 0 <= i < a@.len() {
                            a@[i].model()
                        } else {
                            ValueModel::Boolean(false)
                        },
                ),
            ),
        }
    }
}

impl Doc {
    pub closed spec fn model(self) -> DocModel
        decreases self,
    {
        Seq::new(
            self.entries@.len(),
            |i: int|
                if 0 <= i < self.entries@.len() {
                    (self.entries@[i].0@, self.entries@[i].1.model())
                } else {
                    (Seq::<char>::empty(), ValueModel::Boolean(false))
                },
        )
    }
}

impl View for Value {
    type V = ValueModel;

    open spec fn view(&self) -> ValueModel {
        self.model()
    }
}

impl View for Doc {
    type V = DocModel;

    open spec fn view(&self) -> DocModel {
        self.model()
    }
}

/// The position of the first entry of `m` whose key is `k`, or `m.len()` if
/// no entry has that key.
pub open spec fn model_first_index(m: DocModel, k: Seq<char>) -> int
    decreases m.len(),
{
    if m.len() == 0 {
        0
    } else if m[0].0 == k {
        0
    } else {
        1 + model_first_index(m.drop_first(), k)
    }
}

pub open spec fn model_has_key(m: DocModel, k: Seq<char>) -> bool {
    exists|i: int| 0 <= i < m.len() && m[i].0 == k
}

/// The value at the first entry whose key is `k`.
pub open spec fn model_get(m: DocModel, k: Seq<char>) -> Option<ValueModel> {
    if model_has_key(m, k) {
        Some(m[model_first_index(m, k)].1)
    } else {
        None
    }
}

/// Insertion that keeps an already-present key at its position, replacing
/// only the value; a fresh key is appended.
pub open spec fn model_insert(m: DocModel, k: Seq<char>, v: ValueModel) -> DocModel {
    if model_has_key(m, k) {
        m.update(model_first_index(m, k), (k, v))
    } else {
        m.push((k, v))
    }
}

/// Removal of the entry with key `k`, keeping the order of the others.
pub open spec fn model_remove(m: DocModel, k: Seq<char>) -> DocModel {
    if model_has_key(m, k) {
        m.remove(model_first_index(m, k))
    } else {
        m
    }
}

pub open spec fn keys_unique(m: DocModel) -> bool {
    forall|i: int, j: int| 0 <= i < j < m.len() ==> m[i].0 != m[j].0
}

/// What `model_first_index` finds: the first entry with key `k`, every
/// earlier entry having a different key.
pub proof fn lemma_first_index(m: DocModel, k: Seq<char>)
    ensures
        0 <= model_first_index(m, k) <= m.len(),
        model_has_key(m, k) <==> model_first_index(m, k) < m.len(),
        model_first_index(m, k) < m.len() ==> m[model_first_index(m, k)].0 == k,
        forall|i: int| 0 <= i < model_first_index(m, k) ==> m[i].0 != k,
    decreases m.len(),
{
    if m.len() == 0 {
        assert(!model_has_key(m, k));
    } else if m[0].0 == k {
        assert(model_has_key(m, k));
    } else {
        let t = m.drop_first();
        lemma_first_index(t, k);
        assert(forall|i: int| 0 <= i < t.len() ==> t[i] == m[i + 1]);
        if model_has_key(m, k) {
            let w = choose|i: int| 0 <= i < m.len() && m[i].0 == k;
            assert(w != 0);
            assert(t[w - 1].0 == k);
            assert(model_has_key(t, k));
        }
        if model_has_key(t, k) {
            let w = choose|i: int| 0 <= i < t.len() && t[i].0 == k;
            assert(m[w + 1].0 == k);
            assert(model_has_key(m, k));
        }
        assert forall|i: int| 0 <= i < model_first_index(m, k) implies m[i].0 != k by {
            if i != 0 {
                assert(t[i - 1].0 != k);
            }
        }
    }
}

/// How insertion changes lookups: the inserted key now holds the inserted
/// value, every other key is untouched.
pub proof fn lemma_insert_get(m: DocModel, k: Seq<char>, v: ValueModel, k2: Seq<char>)
    ensures
        model_has_key(model_insert(m, k, v), k2) == (k2 == k || model_has_key(m, k2)),
        model_get(model_insert(m, k, v), k2) == if k2 == k {
            Some(v)
        } else {
            model_get(m, k2)
        },
{
    let n = model_insert(m, k, v);
    lemma_first_index(m, k);
    lemma_first_index(m, k2);
    lemma_first_index(n, k2);
    let fk = model_first_index(m, k);
    let f2m = model_first_index(m, k2);
    let f2n = model_first_index(n, k2);
    if model_has_key(m, k) {
        assert(forall|i: int| 0 <= i < n.len() ==> (#[trigger] n[i]).0 == m[i].0);
        if model_has_key(n, k2) {
            assert(m[f2n].0 == k2);
            assert(model_has_key(m, k2));
        }
        if model_has_key(m, k2) {
            assert(n[f2m].0 == k2);
            assert(model_has_key(n, k2));
            if f2n < f2m {
                assert(m[f2n].0 == k2);
                assert(false);
            }
            if f2m < f2n {
                assert(n[f2m].0 != k2);
                assert(false);
            }
            if k2 == k {
                if f2m < fk {
                    assert(m[f2m].0 != k);
                    assert(false);
                }
                if fk < f2m {
                    assert(m[fk].0 != k2);
                    assert(false);
                }
                assert(n[f2n] == (k, v));
            } else {
                assert(m[f2m].0 == k2);
                assert(f2m != fk);
                assert(n[f2n] == m[f2m]);
            }
        }
    } else {
        assert(n =~= m.push((k, v)));
        assert(forall|i: int| 0 <= i < m.len() ==> (#[trigger] n[i]) == m[i]);
        assert(n[m.len() as int] == (k, v));
        if k2 == k {
            assert(n[m.len() as int].0 == k2);
            assert(model_has_key(n, k2));
            if f2n < m.len() {
                assert(m[f2n].0 == k);
                assert(model_has_key(m, k));
                assert(false);
            }
            assert(f2n == m.len());
        } else {
            if model_has_key(n, k2) {
                assert(n[f2n].0 == k2);
                if f2n == m.len() {
                    assert(false);
                }
                assert(model_has_key(m, k2));
            }
            if model_has_key(m, k2) {
                assert(n[f2m].0 == k2);
                assert(model_has_key(n, k2));
                if f2n < f2m {
                    assert(m[f2n].0 == k2);
                    assert(false);
                }
                if f2m < f2n {
                    assert(n[f2m].0 != k2);
                    assert(false);
                }
                assert(n[f2n] == m[f2m]);
            }
        }
    }
}

/// Insertion keeps the keys pairwise distinct.
pub proof fn lemma_insert_unique(m: DocModel, k: Seq<char>, v: ValueModel)
    requires
        keys_unique(m),
    ensures
        keys_unique(model_insert(m, k, v)),
{
    let n = model_insert(m, k, v);
    lemma_first_index(m, k);
    if model_has_key(m, k) {
        assert(forall|i: int| 0 <= i < n.len() ==> (#[trigger] n[i]).0 == m[i].0);
    } else {
        assert(n =~= m.push((k, v)));
        assert forall|p: int, q: int| 0 <= p < q < n.len() implies n[p].0 != n[q].0 by {
            if q == n.len() - 1 {
                assert(n[p].0 == m[p].0);
            }
        }
    }
}

impl Doc {
    pub open spec fn wf(self) -> bool {
        keys_unique(self@)
    }

    pub fn new() -> (r: Doc)
        ensures
            r@ == Seq::<(Seq<char>, ValueModel)>::empty(),
            r.wf(),
    {
        let r = Doc { entries: Vec::new() };
        proof {
            assert(r@ =~= Seq::<(Seq<char>, ValueModel)>::empty());
        }
        r
    }

    pub fn len(&self) -> (r: usize)
        ensures
            r == self@.len(),
    {
        self.entries.len()
    }

    pub fn is_empty(&self) -> (r: bool)
        ensures
            r == (self@.len() == 0),
    {
        self.entries.len() == 0
    }

    /// The position of the first entry whose key is `key`, or the entry
    /// count if the key is absent.
    fn index_of_key(&self, key: &str) -> (r: usize)
        ensures
            r == model_first_index(self@, key@),
    {
        let k = key.to_owned();
        let n = self.entries.len();
        let mut i: usize = 0;
        while i < n
            invariant
                0 <= i <= n,
                n == self@.len(),
                k@ == key@,
                forall|j: int| 0 <= j < i ==> self@[j].0 != key@,
            decreases n - i,
        {
            if self.entries[i].0 == k {
                proof {
                    lemma_first_index(self@, key@);
                    assert(self@[i as int].0 == key@);
                }
                return i;
            }
            i += 1;
        }
        proof {
            lemma_first_index(self@, key@);
            assert(!model_has_key(self@, key@));
        }
        n
    }

    /// The entry at position `i`, in insertion order.
    pub fn entry(&self, i: usize) -> (r: (&String, &Value))
        requires
            i < self@.len(),
        ensures
            r.0@ == self@[i as int].0,
            r.1@ == self@[i as int].1,
    {
        (&self.entries[i].0, &self.entries[i].1)
    }

    pub fn contains_key(&self, key: &str) -> (r: bool)
        ensures
            r == model_has_key(self@, key@),
    {
        let i = self.index_of_key(key);
        proof {
            lemma_first_index(self@, key@);
        }
        i < self.entries.len()
    }

    pub fn get(&self, key: &str) -> (r: Option<&Value>)
        ensures
            match r {
                Some(v) => model_get(self@, key@) == Some(v@),
                None => model_get(self@, key@) is None,
            },
    {
        let i = self.index_of_key(key);
        proof {
            lemma_first_index(self@, key@);
        }
        if i < self.entries.len() {
            Some(&self.entries[i].1)
        } else {
            None
        }
    }

    /// The string at `key`, if the entry is there and holds a string.
    pub fn get_str(&self, key: &str) -> (r: Option<&String>)
        ensures
            match r {
                Some(s) => model_get(self@, key@) == Some(ValueModel::Text(s@)),
                None => !(model_get(self@, key@) matches Some(ValueModel::Text(_))),
            },
    {
        match self.get(key) {
            Some(Value::Text(s)) => Some(s),
            _ => None,
        }
    }

    pub fn insert(&mut self, key: &str, value: Value)
        ensures
            final(self)@ == model_insert(old(self)@, key@, value@),
            old(self).wf() ==> final(self).wf(),
    {
        let ghost m0 = self@;
        let k = key.to_owned();
        let i = self.index_of_key(key);
        proof {
            lemma_first_index(m0, key@);
        }
        if i < self.entries.len() {
            self.entries.set(i, (k, value));
            proof {
                assert(self@ =~= m0.update(i as int, (key@, value@)));
            }
        } else {
            self.entries.push((k, value));
            proof {
                assert(self@ =~= m0.push((key@, value@)));
                if keys_unique(m0) {
                    assert forall|p: int, q: int| 0 <= p < q < self@.len() implies self@[p].0
                        != self@[q].0 by {
                        if q == self@.len() - 1 {
                            assert(self@[p].0 == m0[p].0);
                            assert(!model_has_key(m0, key@));
                        }
                    }
                }
            }
        }
    }

    pub fn remove(&mut self, key: &str) -> (r: Option<Value>)
        ensures
            final(self)@ == model_remove(old(self)@, key@),
            old(self).wf() ==> final(self).wf(),
            match r {
                Some(v) => model_get(old(self)@, key@) == Some(v@),
                None => model_get(old(self)@, key@) is None,
            },
    {
        let ghost m0 = self@;
        let i = self.index_of_key(key);
        proof {
            lemma_first_index(m0, key@);
        }
        if i < self.entries.len() {
            let (_, v) = self.entries.remove(i);
            proof {
                assert(self@ =~= m0.remove(i as int));
            }
            Some(v)
        } else {
            None
        }
    }
}

} // verus!

use vstd::prelude::*;

verus! {

/// Exact value equality, the way the wire format compares values: documents
/// compare as unordered key/value collections, lists compare pairwise in
/// order, numbers compare only within their own width.
pub open spec fn vm_eq(a: ValueModel, b: ValueModel) -> bool
    decreases a,
{
    match (a, b) {
        (ValueModel::Int32(x), ValueModel::Int32(y)) => x == y,
        (ValueModel::Int64(x), ValueModel::Int64(y)) => x == y,
        (ValueModel::Boolean(x), ValueModel::Boolean(y)) => x == y,
        (ValueModel::Text(x), ValueModel::Text(y)) => x == y,
        (ValueModel::Subdoc(x), ValueModel::Subdoc(y)) => dm_eq(x, y),
        (ValueModel::List(x), ValueModel::List(y)) => x.len() == y.len() && (forall|i: int|
            0 <= i < x.len() ==> vm_eq(#[trigger] x[i], y[i])),
        _ => false,
    }
}

/// Unordered document equality with exact value equality: the same number of
/// entries, and every entry of `a` found in `b` (first match) with an equal
/// value.
pub open spec fn dm_eq(a: DocModel, b: DocModel) -> bool
    decreases a,
{
    &&& a.len() == b.len()
    &&& forall|i: int|
        0 <= i < a.len() ==> match model_get(b, (#[trigger] a[i]).0) {
            Some(v) => vm_eq(a[i].1, v),
            None => false,
        }
}

/// Canonical key-document equality, the relation under which a declared
/// "key" sub-document is looked up among the existing ones: order-sensitive
/// and structural, except that integer values compare regardless of width.
pub open spec fn canon_eq(a: ValueModel, b: ValueModel) -> bool
    decreases a,
{
    match (a, b) {
        (ValueModel::Int32(x), ValueModel::Int32(y)) => x == y,
        (ValueModel::Int32(x), ValueModel::Int64(y)) => x as i64 == y,
        (ValueModel::Int64(x), ValueModel::Int32(y)) => x == y as i64,
        (ValueModel::Int64(x), ValueModel::Int64(y)) => x == y,
        (ValueModel::Boolean(x), ValueModel::Boolean(y)) => x == y,
        (ValueModel::Text(x), ValueModel::Text(y)) => x == y,
        (ValueModel::Subdoc(x), ValueModel::Subdoc(y)) => canon_doc_eq(x, y),
        (ValueModel::List(x), ValueModel::List(y)) => x.len() == y.len() && (forall|i: int|
            0 <= i < x.len() ==> canon_eq(#[trigger] x[i], y[i])),
        _ => false,
    }
}

/// Canonical equality at the document level: same keys in the same order,
/// values canonically equal.
pub open spec fn canon_doc_eq(a: DocModel, b: DocModel) -> bool
    decreases a,
{
    a.len() == b.len() && (forall|i: int|
        0 <= i < a.len() ==> (#[trigger] a[i]).0 == b[i].0 && canon_eq(a[i].1, b[i].1))
}


/// Decides `vm_eq` on two values.
#[verifier::loop_isolation(false)]
pub fn value_eq(a: &Value, b: &Value) -> (r: bool)
    ensures
        r == vm_eq(a@, b@),
    decreases *a,
{
    proof {
        lemma_value_model_variants(*a);
        lemma_value_model_variants(*b);
    }
    match a {
        Value::Int32(x) => match b {
            Value::Int32(y) => {
                proof {
                    assert(a@ == ValueModel::Int32(*x));
                    assert(b@ == ValueModel::Int32(*y));
                }
                return *x == *y;
            },
            _ => return false,
        },
        Value::Int64(x) => match b {
            Value::Int64(y) => {
                proof {
                    assert(a@ == ValueModel::Int64(*x));
                    assert(b@ == ValueModel::Int64(*y));
                }
                return *x == *y;
            },
            _ => return false,
        },
        Value::Boolean(x) => match b {
            Value::Boolean(y) => {
                proof {
                    assert(a@ == ValueModel::Boolean(*x));
                    assert(b@ == ValueModel::Boolean(*y));
                }
                return *x == *y;
            },
            _ => return false,
        },
        Value::Text(x) => match b {
            Value::Text(y) => {
                proof {
                    assert(a@ == ValueModel::Text(x@));
                    assert(b@ == ValueModel::Text(y@));
                }
                return *x == *y;
            },
            _ => return false,
        },
        Value::Subdoc(x) => match b {
            Value::Subdoc(y) => {
                proof {
                    assert(a@ == ValueModel::Subdoc(x@));
                    assert(b@ == ValueModel::Subdoc(y@));
                }
                return doc_are_eq(x, y);
            },
            _ => return false,
        },
        Value::List(x) => match b {
            Value::List(y) => {
                let ghost s = a@->List_0;
                let ghost t = b@->List_0;
                proof {
                    assert(s.len() == x@.len());
                    assert(t.len() == y@.len());
                    assert(forall|j: int| 0 <= j < s.len() ==> s[j] == x@[j]@);
                    assert(forall|j: int| 0 <= j < t.len() ==> t[j] == y@[j]@);
                }
                if x.len() != y.len() {
                    return false;
                }
                let n = x.len();
                let mut i: usize = 0;
                while i < n
                    invariant
                        0 <= i <= n,
                        forall|j: int| 0 <= j < i ==> vm_eq(#[trigger] s[j], t[j]),
                    decreases n - i,
                {
                    if !value_eq(&x[i], &y[i]) {
                        proof {
                            assert(!vm_eq(s[i as int], t[i as int]));
                        }
                        return false;
                    }
                    i += 1;
                }
                return true;
            },
            _ => return false,
        },
    }
}

/// Decides `dm_eq` on two documents.
#[verifier::loop_isolation(false)]
pub fn doc_are_eq(a: &Doc, b: &Doc) -> (r: bool)
    ensures
        r == dm_eq(a@, b@),
    decreases *a,
{
    if a.entries.len() != b.entries.len() {
        return false;
    }
    let n = a.entries.len();
    let mut i: usize = 0;
    while i < n
        invariant
            0 <= i <= n,
            forall|j: int|
                0 <= j < i ==> match model_get(b@, (#[trigger] a@[j]).0) {
                    Some(v) => vm_eq(a@[j].1, v),
                    None => false,
                },
        decreases n - i,
    {
        let k = &a.entries[i].0;
        let v = &a.entries[i].1;
        proof {
            assert(a@[i as int].0 == k@);
            assert(a@[i as int].1 == v@);
        }
        match b.get(k.as_str()) {
            Some(bv) => {
                if !value_eq(v, bv) {
                    return false;
                }
            },
            None => {
                return false;
            },
        }
        i += 1;
    }
    true
}

/// Decides `canon_eq` on two values.
#[verifier::loop_isolation(false)]
pub fn canonical_eq(a: &Value, b: &Value) -> (r: bool)
    ensures
        r == canon_eq(a@, b@),
    decreases *a,
{
    proof {
        lemma_value_model_variants(*a);
        lemma_value_model_variants(*b);
    }
    match a {
        Value::Int32(x) => match b {
            Value::Int32(y) => {
                proof {
                    assert(a@ == ValueModel::Int32(*x));
                    assert(b@ == ValueModel::Int32(*y));
                }
                return *x == *y;
            },
            Value::Int64(y) => {
                proof {
                    assert(a@ == ValueModel::Int32(*x));
                    assert(b@ == ValueModel::Int64(*y));
                }
                return *x as i64 == *y;
            },
            _ => return false,
        },
        Value::Int64(x) => match b {
            Value::Int32(y) => {
                proof {
                    assert(a@ == ValueModel::Int64(*x));
                    assert(b@ == ValueModel::Int32(*y));
                }
                return *x == *y as i64;
            },
            Value::Int64(y) => {
                proof {
                    assert(a@ == ValueModel::Int64(*x));
                    assert(b@ == ValueModel::Int64(*y));
                }
                return *x == *y;
            },
            _ => return false,
        },
        Value::Boolean(x) => match b {
            Value::Boolean(y) => {
                proof {
                    assert(a@ == ValueModel::Boolean(*x));
                    assert(b@ == ValueModel::Boolean(*y));
                }
                return *x == *y;
            },
            _ => return false,
        },
        Value::Text(x) => match b {
            Value::Text(y) => {
                proof {
                    assert(a@ == ValueModel::Text(x@));
                    assert(b@ == ValueModel::Text(y@));
                }
                return *x == *y;
            },
            _ => return false,
        },
        Value::Subdoc(x) => match b {
            Value::Subdoc(y) => {
                proof {
                    assert(a@ == ValueModel::Subdoc(x@));
                    assert(b@ == ValueModel::Subdoc(y@));
                }
                return canonical_doc_eq(x, y);
            },
            _ => return false,
        },
        Value::List(x) => match b {
            Value::List(y) => {
                let ghost s = a@->List_0;
                let ghost t = b@->List_0;
                proof {
                    assert(a@ == ValueModel::List(s));
                    assert(b@ == ValueModel::List(t));
                    assert(s.len() == x@.len());
                    assert(t.len() == y@.len());
                    assert(forall|j: int| 0 <= j < s.len() ==> s[j] == x@[j]@);
                    assert(forall|j: int| 0 <= j < t.len() ==> t[j] == y@[j]@);
                }
                if x.len() != y.len() {
                    proof {
                        assert(!canon_eq(a@, b@));
                    }
                    return false;
                }
                let n = x.len();
                let mut i: usize = 0;
                while i < n
                    invariant
                        0 <= i <= n,
                        forall|j: int| 0 <= j < i ==> canon_eq(#[trigger] s[j], t[j]),
                    decreases n - i,
                {
                    if !canonical_eq(&x[i], &y[i]) {
                        proof {
                            assert(!canon_eq(s[i as int], t[i as int]));
                            assert(!canon_eq(a@, b@));
                        }
                        return false;
                    }
                    i += 1;
                }
                proof {
                    assert(canon_eq(a@, b@));
                }
                return true;
            },
            _ => return false,
        },
    }
}

/// Decides `canon_doc_eq` on two documents.
#[verifier::loop_isolation(false)]
pub fn canonical_doc_eq(x: &Doc, y: &Doc) -> (r: bool)
    ensures
        r == canon_doc_eq(x@, y@),
    decreases *x,
{
    if x.entries.len() != y.entries.len() {
        return false;
    }
    let n = x.entries.len();
    let mut i: usize = 0;
    while i < n
        invariant
            0 <= i <= n,
            forall|j: int| 0 <= j < i ==> (#[trigger] x@[j]).0 == y@[j].0 && canon_eq(
                x@[j].1,
                y@[j].1,
            ),
        decreases n - i,
    {
        if !(x.entries[i].0 == y.entries[i].0) {
            proof {
                assert(x@[i as int].0 != y@[i as int].0);
            }
            return false;
        }
        if !canonical_eq(&x.entries[i].1, &y.entries[i].1) {
            proof {
                assert(!canon_eq(x@[i as int].1, y@[i as int].1));
            }
            return false;
        }
        i += 1;
    }
    true
}

/// Deep copy with an identical model.
#[verifier::loop_isolation(false)]
pub fn clone_value(v: &Value) -> (r: Value)
    ensures
        r@ == v@,
    decreases *v,
{
    match v {
        Value::Int32(n) => Value::Int32(*n),
        Value::Int64(n) => Value::Int64(*n),
        Value::Boolean(b) => Value::Boolean(*b),
        Value::Text(s) => Value::Text(s.clone()),
        Value::Subdoc(d) => Value::Subdoc(clone_doc(d)),
        Value::List(a) => {
            let n = a.len();
            let mut out: Vec<Value> = Vec::new();
            let mut i: usize = 0;
            while i < n
                invariant
                    0 <= i <= n,
                    out@.len() == i,
                    forall|j: int| 0 <= j < i ==> (#[trigger] out@[j])@ == a@[j]@,
                decreases n - i,
            {
                out.push(clone_value(&a[i]));
                i += 1;
            }
            let r = Value::List(out);
            proof {
                assert(r@->List_0 =~= v@->List_0);
            }
            r
        },
    }
}

/// Deep copy with an identical model.
#[verifier::loop_isolation(false)]
pub fn clone_doc(d: &Doc) -> (r: Doc)
    ensures
        r@ == d@,
    decreases *d,
{
    let n = d.entries.len();
    let mut out: Vec<(String, Value)> = Vec::new();
    let mut i: usize = 0;
    while i < n
        invariant
            0 <= i <= n,
            out@.len() == i,
            forall|j: int|
                0 <= j < i ==> (#[trigger] out@[j]).0@ == d.entries@[j].0@ && out@[j].1@
                    == d.entries@[j].1@,
        decreases n - i,
    {
        let k = d.entries[i].0.clone();
        let v = clone_value(&d.entries[i].1);
        out.push((k, v));
        i += 1;
    }
    let r = Doc { entries: out };
    proof {
        assert(r@ =~= d@);
    }
    r
}

impl Clone for Value {
    fn clone(&self) -> (r: Self)
        ensures
            r@ == self@,
    {
        clone_value(self)
    }
}

impl Clone for Doc {
    fn clone(&self) -> (r: Self)
        ensures
            r@ == self@,
    {
        clone_doc(self)
    }
}

/// A value and its model are the same kind of value.
pub proof fn lemma_value_model_variants(v: Value)
    ensures
        (v@ is Int32) <==> (v is Int32),
        (v@ is Int64) <==> (v is Int64),
        (v@ is Boolean) <==> (v is Boolean),
        (v@ is Text) <==> (v is Text),
        (v@ is Subdoc) <==> (v is Subdoc),
        (v@ is List) <==> (v is List),
{
    match v {
        Value::Int32(_) => assert(v@ is Int32),
        Value::Int64(_) => assert(v@ is Int64),
        Value::Boolean(_) => assert(v@ is Boolean),
        Value::Text(_) => assert(v@ is Text),
        Value::Subdoc(_) => assert(v@ is Subdoc),
        Value::List(_) => assert(v@ is List),
    }
}

} // verus!
