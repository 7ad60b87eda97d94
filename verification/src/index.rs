//! Index declarations: which fields an index covers, in which direction or
//! text mode, and the options attached to it; and the encoding of a
//! declaration into the command-fragment document that index creation takes.

use vstd::prelude::*;

use crate::value::Doc;
use crate::value::DocModel;
use crate::value::Value;
use crate::value::ValueModel;
use crate::value::clone_doc;
use crate::value::clone_value;
use crate::value::model_has_key;
use crate::value::model_insert;

verus! {

/// Sort order of one indexed field.
#[derive(Clone, Copy, Debug, PartialEq, Eq, Structural)]
pub enum SortOrder {
    Ascending,
    Descending,
}

/// Spec-level form of one indexed field.
pub enum IndexKeyModel {
    Sort { name: Seq<char>, direction: SortOrder },
    Text { name: Seq<char> },
}

/// One indexed field: a sorted key with a direction, or a text key.
#[derive(Debug)]
enum IndexKey {
    Sort { name: String, direction: SortOrder },
    Text { name: String },
}

impl View for IndexKey {
    type V = IndexKeyModel;

    closed spec fn view(&self) -> IndexKeyModel {
        match self {
            IndexKey::Sort { name, direction } => IndexKeyModel::Sort {
                name: name@,
                direction: *direction,
            },
            IndexKey::Text { name } => IndexKeyModel::Text { name: name@ },
        }
    }
}

/// Spec-level form of one index option.
pub enum IndexOptionModel {
    Background,
    Unique,
    Name(Seq<char>),
    PartialFilterExpression(DocModel),
    Sparse,
    ExpireAfterSeconds(i32),
    StorageEngine(DocModel),
    Collation(DocModel),
    Weights(Seq<(Seq<char>, i32)>),
    Custom { name: Seq<char>, value: ValueModel },
}

/// Option attached to an index declaration. Each option encodes to exactly
/// one key/value pair of the command fragment; `Custom` carries an option
/// this layer does not know by name.
#[derive(Debug)]
pub enum IndexOption {
    /// Build the index in the background.
    Background,
    /// Reject duplicate values of the indexed fields.
    Unique,
    /// Explicit index name, overriding the derived default.
    Name(String),
    /// Index only the documents matching the filter.
    PartialFilterExpression(Doc),
    /// Index only the documents that have the indexed fields.
    Sparse,
    /// Expire indexed documents after this many seconds.
    ExpireAfterSeconds(i32),
    /// Storage engine configuration for the index.
    StorageEngine(Doc),
    /// Collation of the index.
    Collation(Doc),
    /// Weights of the fields of a text index.
    Weights(Vec<(String, i32)>),
    /// A forward-compatibility escape hatch: any option name and value.
    Custom { name: String, value: Value },
}

impl View for IndexOption {
    type V = IndexOptionModel;

    closed spec fn view(&self) -> IndexOptionModel {
        match self {
            IndexOption::Background => IndexOptionModel::Background,
            IndexOption::Unique => IndexOptionModel::Unique,
            IndexOption::Name(s) => IndexOptionModel::Name(s@),
            IndexOption::PartialFilterExpression(d) => IndexOptionModel::PartialFilterExpression(
                d@,
            ),
            IndexOption::Sparse => IndexOptionModel::Sparse,
            IndexOption::ExpireAfterSeconds(n) => IndexOptionModel::ExpireAfterSeconds(*n),
            IndexOption::StorageEngine(d) => IndexOptionModel::StorageEngine(d@),
            IndexOption::Collation(d) => IndexOptionModel::Collation(d@),
            IndexOption::Weights(w) => IndexOptionModel::Weights(
                Seq::new(w@.len(), |i: int| (w@[i].0@, w@[i].1)),
            ),
            IndexOption::Custom { name, value } => IndexOptionModel::Custom {
                name: name@,
                value: value@,
            },
        }
    }
}

/// Spec-level form of an index declaration.
pub struct IndexModel {
    pub keys: Seq<IndexKeyModel>,
    pub options: Seq<IndexOptionModel>,
}

/// Declaration of one index: the indexed fields in order, and the options.
#[derive(Debug)]
pub struct Index {
    keys: Vec<IndexKey>,
    options: Vec<IndexOption>,
}

impl View for Index {
    type V = IndexModel;

    closed spec fn view(&self) -> IndexModel {
        IndexModel {
            keys: Seq::new(self.keys@.len(), |i: int| self.keys@[i]@),
            options: Seq::new(self.options@.len(), |i: int| self.options@[i]@),
        }
    }
}

/// The declared index list of one collection, in declaration order.
#[derive(Debug)]
pub struct Indexes(pub Vec<Index>);

impl View for Indexes {
    type V = Seq<IndexModel>;

    open spec fn view(&self) -> Seq<IndexModel> {
        Seq::new(self.0@.len(), |i: int| self.0@[i]@)
    }
}

impl Index {
    /// A new index over `key`, ascending.
    pub fn new(key: &str) -> (r: Self)
        ensures
            r@.keys == seq![IndexKeyModel::Sort { name: key@, direction: SortOrder::Ascending }],
            r@.options == Seq::<IndexOptionModel>::empty(),
    {
        Self::new_with_direction(key, SortOrder::Ascending)
    }

    /// A new index over `key` with the given direction.
    pub fn new_with_direction(key: &str, direction: SortOrder) -> (r: Self)
        ensures
            r@.keys == seq![IndexKeyModel::Sort { name: key@, direction }],
            r@.options == Seq::<IndexOptionModel>::empty(),
    {
        let mut index = Index { keys: Vec::new(), options: Vec::new() };
        index.add_key_with_direction(key, direction);
        proof {
            assert(index@.keys =~= seq![IndexKeyModel::Sort { name: key@, direction }]);
            assert(index@.options =~= Seq::<IndexOptionModel>::empty());
        }
        index
    }

    /// A new index over `key` as a text key.
    pub fn new_with_text(key: &str) -> (r: Self)
        ensures
            r@.keys == seq![IndexKeyModel::Text { name: key@ }],
            r@.options == Seq::<IndexOptionModel>::empty(),
    {
        let mut index = Index { keys: Vec::new(), options: Vec::new() };
        index.add_key_with_text(key);
        proof {
            assert(index@.keys =~= seq![IndexKeyModel::Text { name: key@ }]);
            assert(index@.options =~= Seq::<IndexOptionModel>::empty());
        }
        index
    }

    /// Append `key`, ascending, making the index compound.
    pub fn add_key(&mut self, key: &str)
        ensures
            final(self)@.keys == old(self)@.keys.push(
                IndexKeyModel::Sort { name: key@, direction: SortOrder::Ascending },
            ),
            final(self)@.options == old(self)@.options,
    {
        self.add_key_with_direction(key, SortOrder::Ascending)
    }

    /// Builder-style `add_key`.
    pub fn with_key(self, key: &str) -> (r: Self)
        ensures
            r@.keys == self@.keys.push(
                IndexKeyModel::Sort { name: key@, direction: SortOrder::Ascending },
            ),
            r@.options == self@.options,
    {
        let mut this = self;
        this.add_key(key);
        this
    }

    /// Append `key` with a direction, making the index compound.
    pub fn add_key_with_direction(&mut self, key: &str, direction: SortOrder)
        ensures
            final(self)@.keys == old(self)@.keys.push(
                IndexKeyModel::Sort { name: key@, direction },
            ),
            final(self)@.options == old(self)@.options,
    {
        self.keys.push(IndexKey::Sort { name: key.to_owned(), direction });
        proof {
            assert(self@.keys =~= old(self)@.keys.push(
                IndexKeyModel::Sort { name: key@, direction },
            ));
            assert(self@.options =~= old(self)@.options);
        }
    }

    /// Append `key` as a text key, making the index compound.
    pub fn add_key_with_text(&mut self, key: &str)
        ensures
            final(self)@.keys == old(self)@.keys.push(IndexKeyModel::Text { name: key@ }),
            final(self)@.options == old(self)@.options,
    {
        self.keys.push(IndexKey::Text { name: key.to_owned() });
        proof {
            assert(self@.keys =~= old(self)@.keys.push(IndexKeyModel::Text { name: key@ }));
            assert(self@.options =~= old(self)@.options);
        }
    }

    /// Builder-style `add_key_with_direction`.
    pub fn with_key_with_direction(self, key: &str, direction: SortOrder) -> (r: Self)
        ensures
            r@.keys == self@.keys.push(IndexKeyModel::Sort { name: key@, direction }),
            r@.options == self@.options,
    {
        let mut this = self;
        this.add_key_with_direction(key, direction);
        this
    }

    /// Attach an option. Options are not deduplicated: a repeated option is
    /// encoded as often as it was attached.
    pub fn add_option(&mut self, option: IndexOption)
        ensures
            final(self)@.keys == old(self)@.keys,
            final(self)@.options == old(self)@.options.push(option@),
    {
        self.options.push(option);
        proof {
            assert(self@.keys =~= old(self)@.keys);
            assert(self@.options =~= old(self)@.options.push(self.options@.last()@));
        }
    }

    /// Builder-style `add_option`.
    pub fn with_option(self, option: IndexOption) -> (r: Self)
        ensures
            r@.keys == self@.keys,
            r@.options == self@.options.push(option@),
    {
        let mut this = self;
        this.add_option(option);
        this
    }

    /// Whether some key of this index is a text key.
    pub fn has_text_key(&self) -> (r: bool)
        ensures
            r == keys_have_text(self@.keys),
    {
        let n = self.keys.len();
        let mut i: usize = 0;
        while i < n
            invariant
                0 <= i <= n,
                n == self@.keys.len(),
                forall|j: int| 0 <= j < i ==> !((#[trigger] self@.keys[j]) is Text),
            decreases n - i,
        {
            if let IndexKey::Text { .. } = &self.keys[i] {
                proof {
                    assert(self@.keys[i as int] is Text);
                }
                return true;
            }
            proof {
                assert(!(self@.keys[i as int] is Text));
            }
            i += 1;
        }
        false
    }
}

/// Whether some key is a text key.
pub open spec fn keys_have_text(keys: Seq<IndexKeyModel>) -> bool {
    exists|i: int| 0 <= i < keys.len() && (#[trigger] keys[i]) is Text
}

impl Default for Index {
    fn default() -> (r: Self)
        ensures
            r@.keys == Seq::<IndexKeyModel>::empty(),
            r@.options == Seq::<IndexOptionModel>::empty(),
    {
        let r = Index { keys: Vec::new(), options: Vec::new() };
        proof {
            assert(r@.keys =~= Seq::<IndexKeyModel>::empty());
            assert(r@.options =~= Seq::<IndexOptionModel>::empty());
        }
        r
    }
}

/// Deep copy with an identical model.
pub fn clone_option(o: &IndexOption) -> (r: IndexOption)
    ensures
        r@ == o@,
{
    match o {
        IndexOption::Background => IndexOption::Background,
        IndexOption::Unique => IndexOption::Unique,
        IndexOption::Name(s) => IndexOption::Name(s.clone()),
        IndexOption::PartialFilterExpression(d) => IndexOption::PartialFilterExpression(
            clone_doc(d),
        ),
        IndexOption::Sparse => IndexOption::Sparse,
        IndexOption::ExpireAfterSeconds(n) => IndexOption::ExpireAfterSeconds(*n),
        IndexOption::StorageEngine(d) => IndexOption::StorageEngine(clone_doc(d)),
        IndexOption::Collation(d) => IndexOption::Collation(clone_doc(d)),
        IndexOption::Weights(w) => {
            let n = w.len();
            let mut out: Vec<(String, i32)> = Vec::new();
            let mut i: usize = 0;
            while i < n
                invariant
                    0 <= i <= n,
                    n == w@.len(),
                    out@.len() == i,
                    forall|j: int|
                        0 <= j < i ==> (#[trigger] out@[j]).0@ == w@[j].0@ && out@[j].1 == w@[j].1,
                decreases n - i,
            {
                out.push((w[i].0.clone(), w[i].1));
                i += 1;
            }
            let r = IndexOption::Weights(out);
            proof {
                assert(r@->Weights_0 =~= o@->Weights_0);
            }
            r
        },
        IndexOption::Custom { name, value } => IndexOption::Custom {
            name: name.clone(),
            value: clone_value(value),
        },
    }
}

/// Deep copy with an identical model.
pub fn clone_index(ix: &Index) -> (r: Index)
    ensures
        r@ == ix@,
{
    let kn = ix.keys.len();
    let mut keys: Vec<IndexKey> = Vec::new();
    let mut i: usize = 0;
    while i < kn
        invariant
            0 <= i <= kn,
            kn == ix.keys@.len(),
            keys@.len() == i,
            forall|j: int| 0 <= j < i ==> (#[trigger] keys@[j])@ == ix.keys@[j]@,
        decreases kn - i,
    {
        let k = match &ix.keys[i] {
            IndexKey::Sort { name, direction } => IndexKey::Sort {
                name: name.clone(),
                direction: *direction,
            },
            IndexKey::Text { name } => IndexKey::Text { name: name.clone() },
        };
        keys.push(k);
        i += 1;
    }
    let on = ix.options.len();
    let mut options: Vec<IndexOption> = Vec::new();
    let mut j: usize = 0;
    while j < on
        invariant
            0 <= j <= on,
            on == ix.options@.len(),
            options@.len() == j,
            forall|p: int| 0 <= p < j ==> (#[trigger] options@[p])@ == ix.options@[p]@,
        decreases on - j,
    {
        options.push(clone_option(&ix.options[j]));
        j += 1;
    }
    let r = Index { keys, options };
    proof {
        assert(r@.keys =~= ix@.keys);
        assert(r@.options =~= ix@.options);
    }
    r
}

impl Clone for Index {
    fn clone(&self) -> (r: Self)
        ensures
            r@ == self@,
    {
        clone_index(self)
    }
}

impl Indexes {
    /// An empty index list.
    pub fn new() -> (r: Self)
        ensures
            r@ == Seq::<IndexModel>::empty(),
    {
        let r = Indexes(Vec::new());
        proof {
            assert(r@ =~= Seq::<IndexModel>::empty());
        }
        r
    }

    /// Builder-style addition of one index.
    pub fn with(self, index: Index) -> (r: Self)
        ensures
            r@ == self@.push(index@),
    {
        let mut this = self;
        this.0.push(index);
        proof {
            assert(this@ =~= self@.push(this.0@.last()@));
        }
        this
    }
}

impl Default for Indexes {
    fn default() -> (r: Self)
        ensures
            r@ == Seq::<IndexModel>::empty(),
    {
        Indexes::new()
    }
}

impl From<Vec<Index>> for Indexes {
    fn from(indexes: Vec<Index>) -> (r: Self) {
        Indexes(indexes)
    }
}

impl vstd::std_specs::convert::FromSpecImpl<Vec<Index>> for Indexes {
    open spec fn obeys_from_spec() -> bool {
        true
    }

    open spec fn from_spec(indexes: Vec<Index>) -> Self {
        Indexes(indexes)
    }
}

impl Clone for Indexes {
    fn clone(&self) -> (r: Self)
        ensures
            r@ == self@,
    {
        let n = self.0.len();
        let mut out: Vec<Index> = Vec::new();
        let mut i: usize = 0;
        while i < n
            invariant
                0 <= i <= n,
                n == self.0@.len(),
                out@.len() == i,
                forall|j: int| 0 <= j < i ==> (#[trigger] out@[j])@ == self.0@[j]@,
            decreases n - i,
        {
            out.push(clone_index(&self.0[i]));
            i += 1;
        }
        let r = Indexes(out);
        proof {
            assert(r@ =~= self@);
        }
        r
    }
}

/// Wire name of one indexed field.
pub open spec fn key_entry_name(k: IndexKeyModel) -> Seq<char> {
    match k {
        IndexKeyModel::Sort { name, .. } => name,
        IndexKeyModel::Text { name } => name,
    }
}

/// Wire value of one indexed field: 1 ascending, -1 descending, "text" for a
/// text key.
pub open spec fn key_entry_value(k: IndexKeyModel) -> ValueModel {
    match k {
        IndexKeyModel::Sort { direction: SortOrder::Ascending, .. } => ValueModel::Int32(1),
        IndexKeyModel::Sort { direction: SortOrder::Descending, .. } => ValueModel::Int32(-1i32),
        IndexKeyModel::Text { .. } => ValueModel::Text("text"@),
    }
}

/// The fragment one key contributes to the derived index name.
pub open spec fn key_fragment(k: IndexKeyModel) -> Seq<char> {
    match k {
        IndexKeyModel::Sort { name, direction: SortOrder::Ascending } => name + "_1"@,
        IndexKeyModel::Sort { name, direction: SortOrder::Descending } => name + "_-1"@,
        IndexKeyModel::Text { name } => name + "_text"@,
    }
}

/// The "key" sub-document of an index declaration: one entry per key, in
/// declaration order.
pub open spec fn key_doc_model(keys: Seq<IndexKeyModel>) -> DocModel
    decreases keys.len(),
{
    if keys.len() == 0 {
        Seq::empty()
    } else {
        model_insert(
            key_doc_model(keys.drop_last()),
            key_entry_name(keys.last()),
            key_entry_value(keys.last()),
        )
    }
}

/// The derived index name: the keys' fragments joined with underscores.
pub open spec fn default_name(keys: Seq<IndexKeyModel>) -> Seq<char>
    decreases keys.len(),
{
    if keys.len() == 0 {
        Seq::empty()
    } else if keys.len() == 1 {
        key_fragment(keys[0])
    } else {
        default_name(keys.drop_last()) + "_"@ + key_fragment(keys.last())
    }
}

/// The wire key of one option.
pub open spec fn option_wire_key(o: IndexOptionModel) -> Seq<char> {
    match o {
        IndexOptionModel::Background => "background"@,
        IndexOptionModel::Unique => "unique"@,
        IndexOptionModel::Name(_) => "name"@,
        IndexOptionModel::PartialFilterExpression(_) => "partialFilterExpression"@,
        IndexOptionModel::Sparse => "sparse"@,
        IndexOptionModel::ExpireAfterSeconds(_) => "expireAfterSeconds"@,
        IndexOptionModel::StorageEngine(_) => "storageEngine"@,
        IndexOptionModel::Collation(_) => "collation"@,
        IndexOptionModel::Weights(_) => "weights"@,
        IndexOptionModel::Custom { name, .. } => name,
    }
}

/// The weights option's sub-document: one entry per weighted field.
pub open spec fn weights_doc_model(w: Seq<(Seq<char>, i32)>) -> DocModel
    decreases w.len(),
{
    if w.len() == 0 {
        Seq::empty()
    } else {
        model_insert(
            weights_doc_model(w.drop_last()),
            w.last().0,
            ValueModel::Int32(w.last().1),
        )
    }
}

/// The wire value of one option.
pub open spec fn option_wire_value(o: IndexOptionModel) -> ValueModel {
    match o {
        IndexOptionModel::Background => ValueModel::Boolean(true),
        IndexOptionModel::Unique => ValueModel::Boolean(true),
        IndexOptionModel::Name(s) => ValueModel::Text(s),
        IndexOptionModel::PartialFilterExpression(d) => ValueModel::Subdoc(d),
        IndexOptionModel::Sparse => ValueModel::Boolean(true),
        IndexOptionModel::ExpireAfterSeconds(n) => ValueModel::Int32(n),
        IndexOptionModel::StorageEngine(d) => ValueModel::Subdoc(d),
        IndexOptionModel::Collation(d) => ValueModel::Subdoc(d),
        IndexOptionModel::Weights(w) => ValueModel::Subdoc(weights_doc_model(w)),
        IndexOptionModel::Custom { value, .. } => value,
    }
}

/// The document after appending every option's wire pair to `base`.
pub open spec fn options_doc_model(base: DocModel, opts: Seq<IndexOptionModel>) -> DocModel
    decreases opts.len(),
{
    if opts.len() == 0 {
        base
    } else {
        model_insert(
            options_doc_model(base, opts.drop_last()),
            option_wire_key(opts.last()),
            option_wire_value(opts.last()),
        )
    }
}

/// The whole command fragment an index declaration encodes to: the "key"
/// sub-document, every option's pair, and the derived name if and only if no
/// option supplied a "name".
pub open spec fn index_doc_model(ix: IndexModel) -> DocModel {
    let base = seq![("key"@, ValueModel::Subdoc(key_doc_model(ix.keys)))];
    let with_opts = options_doc_model(base, ix.options);
    if model_has_key(with_opts, "name"@) {
        with_opts
    } else {
        model_insert(with_opts, "name"@, ValueModel::Text(default_name(ix.keys)))
    }
}

/// Appending options never loses a key that the base document has.
pub proof fn lemma_options_fold_has(base: DocModel, opts: Seq<IndexOptionModel>, k2: Seq<char>)
    requires
        model_has_key(base, k2),
    ensures
        model_has_key(options_doc_model(base, opts), k2),
    decreases opts.len(),
{
    if opts.len() > 0 {
        lemma_options_fold_has(base, opts.drop_last(), k2);
        crate::value::lemma_insert_get(
            options_doc_model(base, opts.drop_last()),
            option_wire_key(opts.last()),
            option_wire_value(opts.last()),
            k2,
        );
    }
}

/// The "key" sub-document of any declaration has pairwise distinct keys.
pub proof fn lemma_key_doc_unique(keys: Seq<IndexKeyModel>)
    ensures
        crate::value::keys_unique(key_doc_model(keys)),
    decreases keys.len(),
{
    if keys.len() > 0 {
        lemma_key_doc_unique(keys.drop_last());
        crate::value::lemma_insert_unique(
            key_doc_model(keys.drop_last()),
            key_entry_name(keys.last()),
            key_entry_value(keys.last()),
        );
    }
}

/// Every encoded index declaration has a "key" entry.
pub proof fn lemma_index_doc_has_key(ix: IndexModel)
    ensures
        model_has_key(index_doc_model(ix), "key"@),
{
    let base = seq![("key"@, ValueModel::Subdoc(key_doc_model(ix.keys)))];
    assert(base[0].0 == "key"@);
    assert(model_has_key(base, "key"@));
    lemma_options_fold_has(base, ix.options, "key"@);
    let with_opts = options_doc_model(base, ix.options);
    if !model_has_key(with_opts, "name"@) {
        crate::value::lemma_insert_get(
            with_opts,
            "name"@,
            ValueModel::Text(default_name(ix.keys)),
            "key"@,
        );
    }
}

impl IndexOption {
    /// The wire key this option encodes to.
    pub fn name(&self) -> (r: &str)
        ensures
            r@ == option_wire_key(self@),
    {
        match self {
            IndexOption::Background => "background",
            IndexOption::Unique => "unique",
            IndexOption::Name(..) => "name",
            IndexOption::PartialFilterExpression(..) => "partialFilterExpression",
            IndexOption::Sparse => "sparse",
            IndexOption::ExpireAfterSeconds(..) => "expireAfterSeconds",
            IndexOption::StorageEngine(..) => "storageEngine",
            IndexOption::Collation(..) => "collation",
            IndexOption::Weights(..) => "weights",
            IndexOption::Custom { name, .. } => name.as_str(),
        }
    }

    /// The wire value this option encodes to.
    #[verifier::loop_isolation(false)]
    pub fn into_value(self) -> (r: Value)
        ensures
            r@ == option_wire_value(self@),
    {
        match self {
            IndexOption::Background | IndexOption::Unique | IndexOption::Sparse => return Value::Boolean(
                true,
            ),
            IndexOption::Name(val) => return Value::Text(val),
            IndexOption::ExpireAfterSeconds(val) => return Value::Int32(val),
            IndexOption::PartialFilterExpression(d) | IndexOption::StorageEngine(d)
                | IndexOption::Collation(d) => return Value::Subdoc(d),
            IndexOption::Weights(w) => {
                let ghost wm = Seq::new(w@.len(), |i: int| (w@[i].0@, w@[i].1));
                let n = w.len();
                let mut doc = Doc::new();
                let mut i: usize = 0;
                while i < n
                    invariant
                        0 <= i <= n,
                        doc@ == weights_doc_model(wm.take(i as int)),
                        doc.wf(),
                    decreases n - i,
                {
                    let k = w[i].0.clone();
                    let v = w[i].1;
                    doc.insert(k.as_str(), Value::Int32(v));
                    proof {
                        assert(wm.take(i + 1).drop_last() =~= wm.take(i as int));
                        assert(wm.take(i + 1).last() == (w@[i as int].0@, w@[i as int].1));
                    }
                    i += 1;
                }
                proof {
                    assert(wm.take(n as int) =~= wm);
                    assert(wm =~= self@->Weights_0);
                }
                return Value::Subdoc(doc);
            },
            IndexOption::Custom { value, .. } => return value,
        }
    }

    /// The wire pair this option encodes to.
    pub fn into_key_value(self) -> (r: (String, Value))
        ensures
            r.0@ == option_wire_key(self@),
            r.1@ == option_wire_value(self@),
    {
        let name = self.name().to_owned();
        let value = self.into_value();
        (name, value)
    }
}

impl Index {
    /// Encode this declaration into the command fragment that index creation
    /// takes: the "key" sub-document in key order, every option's pair in
    /// attachment order, and the derived name unless an option named one.
    #[verifier::loop_isolation(false)]
    pub fn into_document(self) -> (r: Doc)
        ensures
            r@ == index_doc_model(self@),
            r.wf(),
    {
        let ghost m = self@;
        let mut names = String::new();
        let mut keys_doc = Doc::new();
        let kn = self.keys.len();
        let mut i: usize = 0;
        while i < kn
            invariant
                0 <= i <= kn,
                keys_doc@ == key_doc_model(m.keys.take(i as int)),
                keys_doc.wf(),
                names@ == default_name(m.keys.take(i as int)),
            decreases kn - i,
        {
            proof {
                assert(m.keys.take(i + 1).drop_last() =~= m.keys.take(i as int));
                assert(m.keys.take(i + 1).last() == m.keys[i as int]);
                if i > 0 {
                    assert(m.keys.take(i + 1).len() != 1);
                }
            }
            if i > 0 {
                names.append("_");
            }
            match &self.keys[i] {
                IndexKey::Sort { name, direction } => {
                    let mut frag = name.clone();
                    match direction {
                        SortOrder::Ascending => {
                            frag.append("_1");
                            keys_doc.insert(name.as_str(), Value::Int32(1));
                        },
                        SortOrder::Descending => {
                            frag.append("_-1");
                            keys_doc.insert(name.as_str(), Value::Int32(-1));
                        },
                    }
                    names.append(frag.as_str());
                },
                IndexKey::Text { name } => {
                    let mut frag = name.clone();
                    frag.append("_text");
                    keys_doc.insert(name.as_str(), Value::Text("text".to_owned()));
                    names.append(frag.as_str());
                },
            }
            proof {
                if i == 0 {
                    assert(names@ =~= key_fragment(m.keys[0]));
                }
            }
            i += 1;
        }
        proof {
            assert(m.keys.take(kn as int) =~= m.keys);
        }
        let mut index_doc = Doc::new();
        index_doc.insert("key", Value::Subdoc(keys_doc));
        let ghost base = seq![("key"@, ValueModel::Subdoc(key_doc_model(m.keys)))];
        proof {
            assert(index_doc@ =~= base);
        }
        let on = self.options.len();
        let mut j: usize = 0;
        while j < on
            invariant
                0 <= j <= on,
                index_doc@ == options_doc_model(base, m.options.take(j as int)),
                index_doc.wf(),
            decreases on - j,
        {
            proof {
                assert(m.options.take(j + 1).drop_last() =~= m.options.take(j as int));
                assert(m.options.take(j + 1).last() == m.options[j as int]);
            }
            let (key, value) = clone_option(&self.options[j]).into_key_value();
            index_doc.insert(key.as_str(), value);
            j += 1;
        }
        proof {
            assert(m.options.take(on as int) =~= m.options);
        }
        if !index_doc.contains_key("name") {
            index_doc.insert("name", Value::Text(names));
        }
        index_doc
    }
}

/// The documents of a list of declarations, each encoded.
pub open spec fn indexes_docs_model(s: Seq<IndexModel>) -> Seq<ValueModel> {
    Seq::new(s.len(), |i: int| ValueModel::Subdoc(index_doc_model(s[i])))
}

/// The whole index-creation command for a collection: the collection name
/// and every declaration's encoded fragment, in declaration order.
pub open spec fn create_command_model(name: Seq<char>, s: Seq<IndexModel>) -> DocModel {
    seq![
        ("createIndexes"@, ValueModel::Text(name)),
        ("indexes"@, ValueModel::List(indexes_docs_model(s))),
    ]
}

impl Indexes {
    /// The index-creation command for `collection_name` carrying every
    /// declared index of this list.
    #[verifier::loop_isolation(false)]
    pub fn create_indexes_command(self, collection_name: &str) -> (r: Doc)
        ensures
            r@ == create_command_model(collection_name@, self@),
            r.wf(),
    {
        let ghost m = self@;
        let n = self.0.len();
        let mut docs: Vec<Value> = Vec::new();
        let mut i: usize = 0;
        while i < n
            invariant
                0 <= i <= n,
                docs@.len() == i,
                forall|j: int|
                    0 <= j < i ==> (#[trigger] docs@[j])@ == ValueModel::Subdoc(
                        index_doc_model(m[j]),
                    ),
            decreases n - i,
        {
            docs.push(Value::Subdoc(clone_index(&self.0[i]).into_document()));
            i += 1;
        }
        let mut out = Doc::new();
        out.insert("createIndexes", Value::Text(collection_name.to_owned()));
        let lst = Value::List(docs);
        proof {
            assert(lst@->List_0 =~= indexes_docs_model(m));
            assert(lst@ == ValueModel::List(indexes_docs_model(m)));
        }
        out.insert("indexes", lst);
        proof {
            reveal_strlit("createIndexes");
            reveal_strlit("indexes");
            assert("createIndexes"@.len() == 13);
            assert("indexes"@.len() == 7);
            assert("createIndexes"@ != "indexes"@);
            assert(out@ =~= create_command_model(collection_name@, m));
        }
        out
    }
}

} // verus!
