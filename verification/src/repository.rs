//! The bulk-update command: several update operations against one
//! collection, issued as a single command document.

use vstd::prelude::*;

use crate::value::Doc;
use crate::value::DocModel;
use crate::value::Value;
use crate::value::ValueModel;
use crate::value::clone_doc;
use crate::value::clone_value;
use crate::value::model_insert;

verus! {

/// Spec-level form of the options of one update operation.
pub struct BulkUpdateOptionsModel {
    pub upsert: Option<bool>,
    pub collation: Option<DocModel>,
    pub array_filters: Option<Seq<DocModel>>,
    pub hint: Option<ValueModel>,
}

/// Options of one update operation; an absent option is left out of the
/// encoded operation.
pub struct BulkUpdateOptions {
    pub upsert: Option<bool>,
    pub collation: Option<Doc>,
    pub array_filters: Option<Vec<Doc>>,
    pub hint: Option<Value>,
}

impl View for BulkUpdateOptions {
    type V = BulkUpdateOptionsModel;

    open spec fn view(&self) -> BulkUpdateOptionsModel {
        BulkUpdateOptionsModel {
            upsert: self.upsert,
            collation: match self.collation {
                Some(c) => Some(c@),
                None => None,
            },
            array_filters: match self.array_filters {
                Some(fs) => Some(Seq::new(fs@.len(), |i: int| fs@[i]@)),
                None => None,
            },
            hint: match self.hint {
                Some(h) => Some(h@),
                None => None,
            },
        }
    }
}

/// One update operation of a bulk update: a query, the update to apply to
/// the first matching document, and options.
pub struct BulkUpdate {
    pub query: Doc,
    pub update: Doc,
    pub options: Option<BulkUpdateOptions>,
}

/// Spec-level form of one update operation.
pub struct BulkUpdateModel {
    pub query: DocModel,
    pub update: DocModel,
    pub options: Option<BulkUpdateOptionsModel>,
}

impl View for BulkUpdate {
    type V = BulkUpdateModel;

    open spec fn view(&self) -> BulkUpdateModel {
        BulkUpdateModel {
            query: self.query@,
            update: self.update@,
            options: match self.options {
                Some(o) => Some(o@),
                None => None,
            },
        }
    }
}

/// Documents as wire values.
pub open spec fn docs_as_values(fs: Seq<DocModel>) -> Seq<ValueModel> {
    Seq::new(fs.len(), |i: int| ValueModel::Subdoc(fs[i]))
}

/// The document one update operation encodes to: the query, the update, a
/// single-document update, then each present option.
pub open spec fn one_update_model(u: BulkUpdateModel) -> DocModel {
    let base = seq![
        ("q"@, ValueModel::Subdoc(u.query)),
        ("u"@, ValueModel::Subdoc(u.update)),
        ("multi"@, ValueModel::Boolean(false)),
    ];
    match u.options {
        None => base,
        Some(o) => {
            let d1 = match o.upsert {
                Some(b) => model_insert(base, "upsert"@, ValueModel::Boolean(b)),
                None => base,
            };
            let d2 = match o.collation {
                Some(c) => model_insert(d1, "collation"@, ValueModel::Subdoc(c)),
                None => d1,
            };
            let d3 = match o.array_filters {
                Some(fs) => model_insert(d2, "arrayFilters"@, ValueModel::List(docs_as_values(fs))),
                None => d2,
            };
            match o.hint {
                Some(h) => model_insert(d3, "hint"@, h),
                None => d3,
            }
        },
    }
}

/// Spec-level form of a list of update operations.
pub open spec fn bulk_updates_model(s: Seq<BulkUpdate>) -> Seq<BulkUpdateModel> {
    Seq::new(s.len(), |i: int| s[i]@)
}

/// The whole bulk-update command: the collection name, every operation's
/// document in order, and the write concern if one is configured.
pub open spec fn bulk_update_command_model(
    coll: Seq<char>,
    updates: Seq<BulkUpdateModel>,
    wc: Option<DocModel>,
) -> DocModel {
    let base = seq![
        ("update"@, ValueModel::Text(coll)),
        ("updates"@, ValueModel::List(Seq::new(updates.len(), |i: int| ValueModel::Subdoc(one_update_model(updates[i]))))),
    ];
    match wc {
        Some(w) => model_insert(base, "writeConcern"@, ValueModel::Subdoc(w)),
        None => base,
    }
}

/// Encode one update operation.
#[verifier::loop_isolation(false)]
fn one_update_doc(u: &BulkUpdate) -> (r: Doc)
    ensures
        r@ == one_update_model(u@),
        r.wf(),
{
    let mut out = Doc::new();
    out.insert("q", Value::Subdoc(clone_doc(&u.query)));
    out.insert("u", Value::Subdoc(clone_doc(&u.update)));
    out.insert("multi", Value::Boolean(false));
    proof {
        reveal_strlit("q");
        reveal_strlit("u");
        reveal_strlit("multi");
        assert("q"@.len() == 1);
        assert("u"@.len() == 1);
        assert("multi"@.len() == 5);
        assert("q"@[0] == 'q');
        assert("u"@[0] == 'u');
        assert("q"@ != "u"@);
        assert(out@ =~= seq![
            ("q"@, ValueModel::Subdoc(u.query@)),
            ("u"@, ValueModel::Subdoc(u.update@)),
            ("multi"@, ValueModel::Boolean(false)),
        ]);
    }
    if let Some(options) = &u.options {
        if let Some(upsert) = &options.upsert {
            out.insert("upsert", Value::Boolean(*upsert));
        }
        if let Some(collation) = &options.collation {
            out.insert("collation", Value::Subdoc(clone_doc(collation)));
        }
        if let Some(array_filters) = &options.array_filters {
            let n = array_filters.len();
            let mut list: Vec<Value> = Vec::new();
            let mut i: usize = 0;
            while i < n
                invariant
                    0 <= i <= n,
                    list@.len() == i,
                    forall|j: int|
                        0 <= j < i ==> (#[trigger] list@[j])@ == ValueModel::Subdoc(
                            array_filters@[j]@,
                        ),
                decreases n - i,
            {
                list.push(Value::Subdoc(clone_doc(&array_filters[i])));
                i += 1;
            }
            let lst = Value::List(list);
            proof {
                let ghost fsm = Seq::new(array_filters@.len(), |i: int| array_filters@[i]@);
                assert(lst@->List_0 =~= docs_as_values(fsm));
                assert(lst@ == ValueModel::List(docs_as_values(fsm)));
            }
            out.insert("arrayFilters", lst);
        }
        if let Some(hint) = &options.hint {
            out.insert("hint", clone_value(hint));
        }
    }
    out
}

/// Encode the whole bulk-update command for `collection_name`.
#[verifier::loop_isolation(false)]
pub fn bulk_update_command(
    collection_name: &str,
    updates: &Vec<BulkUpdate>,
    write_concern: Option<&Doc>,
) -> (r: Doc)
    ensures
        r@ == bulk_update_command_model(
            collection_name@,
            bulk_updates_model(updates@),
            match write_concern {
                Some(w) => Some(w@),
                None => None,
            },
        ),
        r.wf(),
{
    let ghost um = bulk_updates_model(updates@);
    let n = updates.len();
    let mut list: Vec<Value> = Vec::new();
    let mut i: usize = 0;
    while i < n
        invariant
            0 <= i <= n,
            list@.len() == i,
            forall|j: int|
                0 <= j < i ==> (#[trigger] list@[j])@ == ValueModel::Subdoc(
                    one_update_model(um[j]),
                ),
        decreases n - i,
    {
        list.push(Value::Subdoc(one_update_doc(&updates[i])));
        i += 1;
    }
    let mut out = Doc::new();
    out.insert("update", Value::Text(collection_name.to_owned()));
    let lst = Value::List(list);
    proof {
        assert(lst@->List_0 =~= Seq::new(
            um.len(),
            |i: int| ValueModel::Subdoc(one_update_model(um[i])),
        ));
        assert(lst@ == ValueModel::List(
            Seq::new(um.len(), |i: int| ValueModel::Subdoc(one_update_model(um[i]))),
        ));
    }
    out.insert("updates", lst);
    proof {
        reveal_strlit("update");
        reveal_strlit("updates");
        assert("update"@.len() == 6);
        assert("updates"@.len() == 7);
        assert("update"@ != "updates"@);
        assert(out@ =~= seq![
            ("update"@, ValueModel::Text(collection_name@)),
            ("updates"@, ValueModel::List(Seq::new(um.len(), |i: int| ValueModel::Subdoc(one_update_model(um[i]))))),
        ]);
    }
    if let Some(w) = write_concern {
        out.insert("writeConcern", Value::Subdoc(clone_doc(w)));
    }
    out
}

} // verus!
