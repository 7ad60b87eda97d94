//! The administrative command documents the synchronizer issues, and the
//! recognition of in-band command errors in a response document.

use vstd::prelude::*;

use crate::value::Doc;
use crate::value::DocModel;
use crate::value::Value;
use crate::value::ValueModel;
use crate::value::lemma_first_index;
use crate::value::model_first_index;
use crate::value::model_get;
use crate::value::model_has_key;
use crate::sync::drops_model;

verus! {

/// The command error code the server reports for a listing of a collection
/// that does not exist.
pub const NAMESPACE_NOT_FOUND: i32 = 26;

/// The index-listing command for a collection.
pub open spec fn list_command_model(c: Seq<char>) -> DocModel {
    seq![("listIndexes"@, ValueModel::Text(c))]
}

pub fn list_indexes_command(collection_name: &str) -> (r: Doc)
    ensures
        r@ == list_command_model(collection_name@),
        r.wf(),
{
    let mut out = Doc::new();
    out.insert("listIndexes", Value::Text(collection_name.to_owned()));
    proof {
        assert(out@ =~= list_command_model(collection_name@));
    }
    out
}

/// The names, each as a wire string value.
pub open spec fn names_list_model(names: Seq<Seq<char>>) -> Seq<ValueModel> {
    Seq::new(names.len(), |i: int| ValueModel::Text(names[i]))
}

/// The bulk index-dropping command: all names in one command.
pub open spec fn drop_bulk_model(c: Seq<char>, names: Seq<Seq<char>>) -> DocModel {
    seq![("dropIndexes"@, ValueModel::Text(c)), ("index"@, ValueModel::List(names_list_model(names)))]
}

#[verifier::loop_isolation(false)]
pub fn drop_indexes_command(collection_name: &str, names: &Vec<String>) -> (r: Doc)
    ensures
        r@ == drop_bulk_model(collection_name@, drops_model(names@)),
        r.wf(),
{
    let n = names.len();
    let mut list: Vec<Value> = Vec::new();
    let mut i: usize = 0;
    while i < n
        invariant
            0 <= i <= n,
            list@.len() == i,
            forall|j: int| 0 <= j < i ==> (#[trigger] list@[j])@ == ValueModel::Text(names@[j]@),
        decreases n - i,
    {
        list.push(Value::Text(names[i].clone()));
        i += 1;
    }
    let mut out = Doc::new();
    out.insert("dropIndexes", Value::Text(collection_name.to_owned()));
    let lst = Value::List(list);
    proof {
        assert(lst@->List_0 =~= names_list_model(drops_model(names@)));
        assert(lst@ == ValueModel::List(names_list_model(drops_model(names@))));
    }
    out.insert("index", lst);
    proof {
        reveal_strlit("dropIndexes");
        reveal_strlit("index");
        assert("dropIndexes"@.len() == 11);
        assert("index"@.len() == 5);
        assert("dropIndexes"@ != "index"@);
        assert(out@ =~= drop_bulk_model(collection_name@, drops_model(names@)));
    }
    out
}

/// The single-name index-dropping command, the fallback when the bulk form
/// is not supported.
pub open spec fn drop_one_model(c: Seq<char>, name: Seq<char>) -> DocModel {
    seq![("dropIndexes"@, ValueModel::Text(c)), ("index"@, ValueModel::Text(name))]
}

pub fn drop_one_index_command(collection_name: &str, name: &str) -> (r: Doc)
    ensures
        r@ == drop_one_model(collection_name@, name@),
        r.wf(),
{
    let mut out = Doc::new();
    out.insert("dropIndexes", Value::Text(collection_name.to_owned()));
    out.insert("index", Value::Text(name.to_owned()));
    proof {
        reveal_strlit("dropIndexes");
        reveal_strlit("index");
        assert("dropIndexes"@.len() == 11);
        assert("index"@.len() == 5);
        assert("dropIndexes"@ != "index"@);
        assert(out@ =~= drop_one_model(collection_name@, name@));
    }
    out
}

/// The command error code a response document carries, if any: its "code"
/// entry read as a 32-bit integer.
pub open spec fn command_error_code_model(d: DocModel) -> Option<i32> {
    match model_get(d, "code"@) {
        Some(ValueModel::Int32(c)) => Some(c),
        Some(ValueModel::Int64(c)) => if i32::MIN <= c <= i32::MAX {
            Some(c as i32)
        } else {
            None
        },
        _ => None,
    }
}

/// Read the in-band command error code of a response document, if it
/// carries one.
pub fn command_error_code(response: &Doc) -> (r: Option<i32>)
    ensures
        r == command_error_code_model(response@),
{
    let cv = response.get("code");
    proof {
        match cv {
            Some(v) => crate::value::lemma_value_model_variants(*v),
            None => (),
        }
    }
    match cv {
        Some(Value::Int32(c)) => Some(*c),
        Some(Value::Int64(c)) => {
            if i32::MIN as i64 <= *c && *c <= i32::MAX as i64 {
                Some(*c as i32)
            } else {
                None
            }
        },
        _ => None,
    }
}

/// Whether a command error code means the collection does not exist yet, in
/// which case the listing counts as empty rather than as a failure.
pub fn namespace_not_found(code: i32) -> (r: bool)
    ensures
        r == (code == NAMESPACE_NOT_FOUND),
{
    code == NAMESPACE_NOT_FOUND
}

/// Dropping by one bulk command and dropping name by name target the same
/// indexes: the bulk command's "index" array holds exactly the given names
/// in order, and the fallback's i-th command names exactly the i-th name.
pub proof fn lemma_drop_fallback_equivalence(c: Seq<char>, names: Seq<Seq<char>>)
    ensures
        model_get(drop_bulk_model(c, names), "index"@) == Some(
            ValueModel::List(names_list_model(names)),
        ),
        names_list_model(names).len() == names.len(),
        forall|i: int|
            0 <= i < names.len() ==> names_list_model(names)[i] == ValueModel::Text(names[i]),
        forall|i: int|
            0 <= i < names.len() ==> model_get(drop_one_model(c, names[i]), "index"@) == Some(
                ValueModel::Text(names[i]),
            ),
{
    reveal_strlit("dropIndexes");
    reveal_strlit("index");
    assert("dropIndexes"@.len() == 11);
    assert("index"@.len() == 5);
    assert("dropIndexes"@ != "index"@);
    let b = drop_bulk_model(c, names);
    assert(b[1].0 == "index"@);
    assert(model_has_key(b, "index"@));
    lemma_first_index(b, "index"@);
    assert(model_first_index(b, "index"@) == 1) by {
        assert(b[0].0 != "index"@);
    }
    assert forall|i: int| 0 <= i < names.len() implies model_get(
        drop_one_model(c, names[i]),
        "index"@,
    ) == Some(ValueModel::Text(names[i])) by {
        let o = drop_one_model(c, names[i]);
        assert(o[1].0 == "index"@);
        assert(model_has_key(o, "index"@));
        lemma_first_index(o, "index"@);
        assert(model_first_index(o, "index"@) == 1) by {
            assert(o[0].0 != "index"@);
        }
    }
}

} // verus!
