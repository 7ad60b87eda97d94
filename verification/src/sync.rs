//! The synchronization plan: given the declared index list and the indexes a
//! live collection reports, which existing indexes to drop and which declared
//! indexes to create, so that applying the plan brings the collection into
//! agreement with the declaration.

use vstd::prelude::*;

use crate::index::Index;
use crate::index::IndexModel;
use crate::index::Indexes;
use crate::index::clone_index;
use crate::index::index_doc_model;
use crate::index::keys_have_text;
use crate::value::Doc;
use crate::value::DocModel;
use crate::value::Value;
use crate::value::ValueModel;
use crate::value::canon_eq;
use crate::value::canonical_eq;
use crate::value::clone_doc;
use crate::value::clone_value;
use crate::value::dm_eq;
use crate::value::doc_are_eq;
use crate::value::model_get;
use crate::value::model_has_key;
use crate::value::model_insert;
use crate::value::model_remove;

verus! {

/// What can go wrong while computing a plan, before any command is issued.
#[derive(Clone, Copy, Debug, PartialEq, Eq, Structural)]
pub enum SyncError {
    /// The listing response does not have the expected shape.
    MalformedListing,
    /// The listing response is paginated: its first batch is not the whole
    /// index inventory, and a plan over a partial inventory would be wrong.
    IncompleteListing,
    /// An existing index descriptor has no "key" field.
    MissingKey,
    /// An existing index descriptor considered for dropping has no "name"
    /// string.
    MissingName,
}

/// Spec-level form of a parsed index listing: the cursor id and the reported
/// descriptors.
pub open spec fn listing_model(resp: DocModel) -> Result<(i64, Seq<DocModel>), SyncError> {
    match model_get(resp, "cursor"@) {
        Some(ValueModel::Subdoc(cur)) => {
            let id = match model_get(cur, "id"@) {
                Some(ValueModel::Int64(n)) => Some(n),
                Some(ValueModel::Int32(n)) => Some(n as i64),
                _ => None,
            };
            match id {
                Some(n) => match model_get(cur, "firstBatch"@) {
                    None => Ok((n, Seq::empty())),
                    Some(ValueModel::List(items)) => if forall|i: int|
                        0 <= i < items.len() ==> (#[trigger] items[i]) is Subdoc {
                        Ok((n, Seq::new(items.len(), |i: int| items[i]->Subdoc_0)))
                    } else {
                        Err(SyncError::MalformedListing)
                    },
                    Some(_) => Err(SyncError::MalformedListing),
                },
                None => Err(SyncError::MalformedListing),
            }
        },
        _ => Err(SyncError::MalformedListing),
    }
}

/// The position of the first entry of the existing-index map whose canonical
/// key equals `k`, or the map's length if none does.
pub open spec fn canon_index(rem: Seq<(ValueModel, DocModel)>, k: ValueModel) -> int
    decreases rem.len(),
{
    if rem.len() == 0 {
        0
    } else if canon_eq(rem[0].0, k) {
        0
    } else {
        1 + canon_index(rem.drop_first(), k)
    }
}

pub open spec fn canon_has(rem: Seq<(ValueModel, DocModel)>, k: ValueModel) -> bool {
    exists|i: int| 0 <= i < rem.len() && canon_eq((#[trigger] rem[i]).0, k)
}

/// What `canon_index` finds: the first canonically matching entry, every
/// earlier entry not matching.
pub proof fn lemma_canon_index(rem: Seq<(ValueModel, DocModel)>, k: ValueModel)
    ensures
        0 <= canon_index(rem, k) <= rem.len(),
        canon_has(rem, k) <==> canon_index(rem, k) < rem.len(),
        canon_index(rem, k) < rem.len() ==> canon_eq(rem[canon_index(rem, k)].0, k),
        forall|i: int| 0 <= i < canon_index(rem, k) ==> !canon_eq((#[trigger] rem[i]).0, k),
    decreases rem.len(),
{
    if rem.len() == 0 {
        assert(!canon_has(rem, k));
    } else if canon_eq(rem[0].0, k) {
        assert(canon_has(rem, k));
    } else {
        let t = rem.drop_first();
        lemma_canon_index(t, k);
        assert(forall|i: int| 0 <= i < t.len() ==> t[i] == rem[i + 1]);
        if canon_has(rem, k) {
            let w = choose|i: int| 0 <= i < rem.len() && canon_eq(rem[i].0, k);
            assert(w != 0);
            assert(canon_eq(t[w - 1].0, k));
            assert(canon_has(t, k));
        }
        if canon_has(t, k) {
            let w = choose|i: int| 0 <= i < t.len() && canon_eq(t[i].0, k);
            assert(canon_eq(rem[w + 1].0, k));
            assert(canon_has(rem, k));
        }
        assert forall|i: int| 0 <= i < canon_index(rem, k) implies !canon_eq(
            (#[trigger] rem[i]).0,
            k,
        ) by {
            if i != 0 {
                assert(!canon_eq(t[i - 1].0, k));
            }
        }
    }
}

/// One descriptor registered into the existing-index map: a descriptor whose
/// canonical key is already present replaces that entry's descriptor in
/// place; a new key is appended.
pub open spec fn register_existing(acc: Seq<(ValueModel, DocModel)>, d: DocModel) -> Result<
    Seq<(ValueModel, DocModel)>,
    SyncError,
> {
    match model_get(d, "key"@) {
        Some(k) => if canon_has(acc, k) {
            Ok(acc.update(canon_index(acc, k), (acc[canon_index(acc, k)].0, d)))
        } else {
            Ok(acc.push((k, d)))
        },
        None => Err(SyncError::MissingKey),
    }
}

/// The existing-index map built from the reported descriptors, in order.
pub open spec fn build_existing(ds: Seq<DocModel>) -> Result<
    Seq<(ValueModel, DocModel)>,
    SyncError,
> {
    build_existing_from(Seq::empty(), ds)
}

pub open spec fn build_existing_from(
    acc: Seq<(ValueModel, DocModel)>,
    ds: Seq<DocModel>,
) -> Result<Seq<(ValueModel, DocModel)>, SyncError>
    decreases ds.len(),
{
    if ds.len() == 0 {
        Ok(acc)
    } else {
        match register_existing(acc, ds.first()) {
            Ok(acc2) => build_existing_from(acc2, ds.drop_first()),
            Err(e) => Err(e),
        }
    }
}

/// The fixed "key" sub-document under which the database persists and
/// reports every text index, however it was declared.
pub open spec fn text_sentinel_key() -> DocModel {
    seq![("_fts"@, ValueModel::Text("text"@)), ("_ftsx"@, ValueModel::Int32(1))]
}

/// A descriptor without its volatile server metadata.
pub open spec fn strip_volatile(d: DocModel) -> DocModel {
    model_remove(model_remove(d, "ns"@), "v"@)
}

/// The declared "key" sub-document with each "text" marker replaced by the
/// default text weight of 1: what the weights of an in-sync text index must
/// equal.
pub open spec fn rewrite_text_weights(d: DocModel) -> DocModel
    decreases d.len(),
{
    if d.len() == 0 {
        Seq::empty()
    } else {
        model_insert(
            rewrite_text_weights(d.drop_last()),
            d.last().0,
            if d.last().1 == ValueModel::Text("text"@) {
                ValueModel::Int32(1)
            } else {
                d.last().1
            },
        )
    }
}

/// The state carried through the classification of the declared indexes.
pub struct PlanState {
    /// Existing descriptors not yet matched by a declared index.
    pub remaining: Seq<(ValueModel, DocModel)>,
    /// Names of existing indexes to drop, in decision order.
    pub drops: Seq<Seq<char>>,
    /// Declared indexes that still must be created, in declaration order.
    pub creates: Seq<IndexModel>,
}

/// The encoded form under which a declared index is matched against the
/// existing ones: its command fragment, with the "key" sub-document replaced
/// by the text sentinel if the index has a text key.
pub open spec fn match_doc_model(ix: IndexModel) -> DocModel {
    if keys_have_text(ix.keys) {
        model_insert(index_doc_model(ix), "key"@, ValueModel::Subdoc(text_sentinel_key()))
    } else {
        index_doc_model(ix)
    }
}

/// One declared index classified against the state: unmatched indexes are
/// kept for creation; a matched, equal one is in sync; a matched, different
/// one is dropped by the existing index's name and kept for creation. The
/// primary-key index is never dropped.
pub open spec fn classify_step(st: PlanState, ix: IndexModel) -> Result<PlanState, SyncError> {
    let encoded = index_doc_model(ix);
    let text = keys_have_text(ix.keys);
    let mdoc = match_doc_model(ix);
    let mk = model_get(mdoc, "key"@)->Some_0;
    if !canon_has(st.remaining, mk) {
        Ok(PlanState { remaining: st.remaining, drops: st.drops, creates: st.creates.push(ix) })
    } else {
        let j = canon_index(st.remaining, mk);
        let stripped = strip_volatile(st.remaining[j].1);
        let rem = st.remaining.remove(j);
        let tkeys = model_get(encoded, "key"@);
        let wopt = model_get(stripped, "weights"@);
        if text && (tkeys matches Some(ValueModel::Subdoc(_))) && (wopt matches Some(
            ValueModel::Subdoc(_),
        )) {
            if dm_eq(wopt->Some_0->Subdoc_0, rewrite_text_weights(tkeys->Some_0->Subdoc_0)) {
                Ok(PlanState { remaining: rem, drops: st.drops, creates: st.creates })
            } else {
                drop_matched(st, rem, stripped, ix)
            }
        } else {
            if dm_eq(mdoc, stripped) {
                Ok(PlanState { remaining: rem, drops: st.drops, creates: st.creates })
            } else {
                drop_matched(st, rem, stripped, ix)
            }
        }
    }
}

/// A matched existing index that is out of sync: drop it by its own name,
/// unless it is the protected primary-key index, and keep the declaration
/// for creation.
pub open spec fn drop_matched(
    st: PlanState,
    rem: Seq<(ValueModel, DocModel)>,
    stripped: DocModel,
    ix: IndexModel,
) -> Result<PlanState, SyncError> {
    match model_get(stripped, "name"@) {
        Some(ValueModel::Text(n)) => Ok(
            PlanState {
                remaining: rem,
                drops: if n == "_id_"@ {
                    st.drops
                } else {
                    st.drops.push(n)
                },
                creates: st.creates.push(ix),
            },
        ),
        _ => Err(SyncError::MissingName),
    }
}

/// Every declared index classified, in declaration order.
pub open spec fn classify_all(st: PlanState, ixs: Seq<IndexModel>) -> Result<
    PlanState,
    SyncError,
>
    decreases ixs.len(),
{
    if ixs.len() == 0 {
        Ok(st)
    } else {
        match classify_step(st, ixs.first()) {
            Ok(st2) => classify_all(st2, ixs.drop_first()),
            Err(e) => Err(e),
        }
    }
}

/// Every existing index that no declared index matched is dropped by its
/// name, except the protected primary-key index "_id_".
pub open spec fn sweep_remaining(
    rem: Seq<(ValueModel, DocModel)>,
    drops: Seq<Seq<char>>,
) -> Result<Seq<Seq<char>>, SyncError>
    decreases rem.len(),
{
    if rem.len() == 0 {
        Ok(drops)
    } else {
        match model_get(rem.first().1, "name"@) {
            Some(ValueModel::Text(n)) => sweep_remaining(
                rem.drop_first(),
                if n == "_id_"@ {
                    drops
                } else {
                    drops.push(n)
                },
            ),
            _ => Err(SyncError::MissingName),
        }
    }
}

/// Spec-level form of a plan.
pub struct PlanModel {
    pub drops: Seq<Seq<char>>,
    pub creates: Seq<IndexModel>,
}

/// The whole plan: the existing-index map built from the descriptors, every
/// declared index classified against it, and the unmatched rest swept.
pub open spec fn plan_model(ixs: Seq<IndexModel>, existing: Seq<DocModel>) -> Result<
    PlanModel,
    SyncError,
> {
    match build_existing(existing) {
        Ok(rem0) => {
            let st0 = PlanState { remaining: rem0, drops: Seq::empty(), creates: Seq::empty() };
            match classify_all(st0, ixs) {
                Ok(st) => match sweep_remaining(st.remaining, st.drops) {
                    Ok(drops) => Ok(PlanModel { drops, creates: st.creates }),
                    Err(e) => Err(e),
                },
                Err(e) => Err(e),
            }
        },
        Err(e) => Err(e),
    }
}

/// The plan computed from a raw listing response: a paginated response is
/// refused, anything else is parsed and planned.
pub open spec fn plan_from_listing_model(ixs: Seq<IndexModel>, resp: DocModel) -> Result<
    PlanModel,
    SyncError,
> {
    match listing_model(resp) {
        Ok(p) => if p.0 != 0 {
            Err(SyncError::IncompleteListing)
        } else {
            plan_model(ixs, p.1)
        },
        Err(e) => Err(e),
    }
}

/// Models of a sequence of documents.
pub open spec fn doc_seq_model(s: Seq<Doc>) -> Seq<DocModel> {
    Seq::new(s.len(), |i: int| s[i]@)
}

/// Models of the working existing-index map.
pub open spec fn rem_model(s: Seq<(Value, Doc)>) -> Seq<(ValueModel, DocModel)> {
    Seq::new(s.len(), |i: int| (s[i].0@, s[i].1@))
}

/// Models of the collected drop names.
pub open spec fn drops_model(s: Seq<String>) -> Seq<Seq<char>> {
    Seq::new(s.len(), |i: int| s[i]@)
}

/// Models of the collected declarations to create.
pub open spec fn creates_model(s: Seq<Index>) -> Seq<IndexModel> {
    Seq::new(s.len(), |i: int| s[i]@)
}

/// The position `canon_index` names, found by scanning.
#[verifier::loop_isolation(false)]
fn canon_find(rem: &Vec<(Value, Doc)>, k: &Value) -> (r: usize)
    ensures
        r == canon_index(rem_model(rem@), k@),
{
    let ghost rm = rem_model(rem@);
    let n = rem.len();
    let mut i: usize = 0;
    while i < n
        invariant
            0 <= i <= n,
            forall|j: int| 0 <= j < i ==> !canon_eq((#[trigger] rm[j]).0, k@),
        decreases n - i,
    {
        if canonical_eq(&rem[i].0, k) {
            proof {
                lemma_canon_index(rm, k@);
                assert(canon_eq(rm[i as int].0, k@));
            }
            return i;
        }
        i += 1;
    }
    proof {
        lemma_canon_index(rm, k@);
        assert(!canon_has(rm, k@));
    }
    n
}

/// The weights an in-sync text index must carry, computed from the declared
/// "key" sub-document.
#[verifier::loop_isolation(false)]
fn expected_text_weights(tk: &Doc) -> (r: Doc)
    ensures
        r@ == rewrite_text_weights(tk@),
{
    let text_marker = "text".to_owned();
    let n = tk.len();
    let mut out = Doc::new();
    let mut i: usize = 0;
    while i < n
        invariant
            0 <= i <= n,
            out@ == rewrite_text_weights(tk@.take(i as int)),
        decreases n - i,
    {
        let (k, v) = tk.entry(i);
        proof {
            crate::value::lemma_value_model_variants(*v);
            assert(tk@.take(i + 1).drop_last() =~= tk@.take(i as int));
            assert(tk@.take(i + 1).last() == tk@[i as int]);
        }
        let nv = match v {
            Value::Text(s) => {
                if *s == text_marker {
                    proof {
                        assert(v@ == ValueModel::Text("text"@));
                    }
                    Value::Int32(1)
                } else {
                    proof {
                        assert(v@ != ValueModel::Text("text"@));
                    }
                    clone_value(v)
                }
            },
            _ => clone_value(v),
        };
        out.insert(k.as_str(), nv);
        i += 1;
    }
    proof {
        assert(tk@.take(n as int) =~= tk@);
    }
    out
}

/// A parsed index listing: the cursor id the response carried and the
/// reported index descriptors.
#[derive(Debug)]
pub struct Listing {
    pub cursor_id: i64,
    pub batch: Vec<Doc>,
}

impl View for Listing {
    type V = (i64, Seq<DocModel>);

    open spec fn view(&self) -> (i64, Seq<DocModel>) {
        (self.cursor_id, doc_seq_model(self.batch@))
    }
}

/// Parse a listing response: the "cursor" sub-document's "id" and its
/// "firstBatch" descriptors, an absent batch standing for no descriptors.
/// Anything else in the response is ignored; a response without that shape
/// is refused.
#[verifier::loop_isolation(false)]
pub fn parse_listing(resp: &Doc) -> (r: Result<Listing, SyncError>)
    ensures
        match r {
            Ok(l) => listing_model(resp@) == Ok::<(i64, Seq<DocModel>), SyncError>(l@),
            Err(e) => listing_model(resp@) == Err::<(i64, Seq<DocModel>), SyncError>(e),
        },
{
    let cv = resp.get("cursor");
    proof {
        match cv {
            Some(v) => crate::value::lemma_value_model_variants(*v),
            None => (),
        }
    }
    let cur = match cv {
        Some(Value::Subdoc(c)) => c,
        _ => {
            return Err(SyncError::MalformedListing);
        },
    };
    let iv = cur.get("id");
    proof {
        match iv {
            Some(v) => crate::value::lemma_value_model_variants(*v),
            None => (),
        }
    }
    let id: i64 = match iv {
        Some(Value::Int64(n)) => *n,
        Some(Value::Int32(n)) => *n as i64,
        _ => {
            return Err(SyncError::MalformedListing);
        },
    };
    let bv = cur.get("firstBatch");
    proof {
        match bv {
            Some(v) => crate::value::lemma_value_model_variants(*v),
            None => (),
        }
    }
    match bv {
        None => {
            let l = Listing { cursor_id: id, batch: Vec::new() };
            proof {
                assert(doc_seq_model(l.batch@) =~= Seq::<DocModel>::empty());
            }
            Ok(l)
        },
        Some(Value::List(items)) => {
            let ghost lm = bv->Some_0@->List_0;
            proof {
                assert(lm.len() == items@.len());
                assert(forall|j: int| 0 <= j < lm.len() ==> lm[j] == items@[j]@);
            }
            let n = items.len();
            let mut batch: Vec<Doc> = Vec::new();
            let mut i: usize = 0;
            while i < n
                invariant
                    0 <= i <= n,
                    batch@.len() == i,
                    forall|j: int| 0 <= j < i ==> (#[trigger] lm[j]) is Subdoc,
                    forall|j: int| 0 <= j < i ==> (#[trigger] batch@[j])@ == lm[j]->Subdoc_0,
                decreases n - i,
            {
                proof {
                    crate::value::lemma_value_model_variants(items@[i as int]);
                }
                match &items[i] {
                    Value::Subdoc(d) => {
                        batch.push(clone_doc(d));
                    },
                    _ => {
                        proof {
                            assert(!(lm[i as int] is Subdoc));
                        }
                        return Err(SyncError::MalformedListing);
                    },
                }
                i += 1;
            }
            let l = Listing { cursor_id: id, batch };
            proof {
                assert(doc_seq_model(l.batch@) =~= Seq::new(lm.len(), |j: int| lm[j]->Subdoc_0));
            }
            Ok(l)
        },
        Some(_) => Err(SyncError::MalformedListing),
    }
}

/// The computed plan: the existing indexes to drop, by name, and the
/// declared indexes to create, in declaration order.
#[derive(Debug)]
pub struct SyncPlan {
    pub to_drop: Vec<String>,
    pub to_create: Indexes,
}

impl View for SyncPlan {
    type V = PlanModel;

    open spec fn view(&self) -> PlanModel {
        PlanModel { drops: drops_model(self.to_drop@), creates: self.to_create@ }
    }
}

/// Compute the plan that reconciles `indexes` with the reported `existing`
/// descriptors. The protected primary-key index "_id_" is never scheduled
/// for dropping, whatever is declared.
#[verifier::loop_isolation(false)]
#[verifier::rlimit(50)]
pub fn plan_sync(indexes: &Indexes, existing: &Vec<Doc>) -> (r: Result<SyncPlan, SyncError>)
    ensures
        match r {
            Ok(p) => plan_model(indexes@, doc_seq_model(existing@)) == Ok::<PlanModel, SyncError>(
                p@,
            ) && (forall|i: int|
                0 <= i < p.to_drop@.len() ==> (#[trigger] p.to_drop@[i])@ != "_id_"@),
            Err(e) => plan_model(indexes@, doc_seq_model(existing@)) == Err::<
                PlanModel,
                SyncError,
            >(e),
        },
{
    let ghost ds = doc_seq_model(existing@);
    let ghost ixs = indexes@;

    // Build the existing-index map, keyed canonically by each descriptor's
    // "key" sub-document.
    let mut remaining: Vec<(Value, Doc)> = Vec::new();
    let en = existing.len();
    let mut i: usize = 0;
    proof {
        assert(rem_model(remaining@) =~= Seq::<(ValueModel, DocModel)>::empty());
        assert(ds.skip(0) =~= ds);
    }
    while i < en
        invariant
            0 <= i <= en,
            build_existing(ds) == build_existing_from(rem_model(remaining@), ds.skip(i as int)),
        decreases en - i,
    {
        let ghost rm = rem_model(remaining@);
        let d = &existing[i];
        proof {
            assert(d@ == ds[i as int]);
            assert(ds.skip(i as int).first() == ds[i as int]);
            assert(ds.skip(i as int).drop_first() =~= ds.skip(i + 1));
        }
        let kv = match d.get("key") {
            Some(v) => v,
            None => {
                proof {
                    assert(register_existing(rm, ds[i as int]) == Err::<
                        Seq<(ValueModel, DocModel)>,
                        SyncError,
                    >(SyncError::MissingKey));
                }
                return Err(SyncError::MissingKey);
            },
        };
        let j = canon_find(&remaining, kv);
        proof {
            lemma_canon_index(rm, kv@);
        }
        if j < remaining.len() {
            let oldk = clone_value(&remaining[j].0);
            remaining.set(j, (oldk, clone_doc(d)));
            proof {
                let ghost di = ds[i as int];
                assert(rem_model(remaining@) =~= rm.update(j as int, (rm[j as int].0, di)));
            }
        } else {
            remaining.push((clone_value(kv), clone_doc(d)));
            proof {
                assert(rem_model(remaining@) =~= rm.push((kv@, ds[i as int])));
            }
        }
        i += 1;
    }
    proof {
        assert(ds.skip(en as int) =~= Seq::<DocModel>::empty());
    }
    let ghost rm0 = rem_model(remaining@);
    proof {
        assert(build_existing(ds) == Ok::<Seq<(ValueModel, DocModel)>, SyncError>(rm0));
    }
    let ghost st0 = PlanState { remaining: rm0, drops: Seq::empty(), creates: Seq::empty() };

    // Classify every declared index against the map.
    let mut to_drop: Vec<String> = Vec::new();
    let mut creates: Vec<Index> = Vec::new();
    let id_name = "_id_".to_owned();
    let cn = indexes.0.len();
    let mut c: usize = 0;
    proof {
        assert(drops_model(to_drop@) =~= Seq::<Seq<char>>::empty());
        assert(creates_model(creates@) =~= Seq::<IndexModel>::empty());
        assert(ixs.skip(0) =~= ixs);
        assert(ixs.len() == cn);
    }
    while c < cn
        invariant
            0 <= c <= cn,
            ixs.len() == cn,
            ixs == indexes@,
            id_name@ == "_id_"@,
            build_existing(ds) == Ok::<Seq<(ValueModel, DocModel)>, SyncError>(rm0),
            st0 == (PlanState {
                remaining: rm0,
                drops: Seq::<Seq<char>>::empty(),
                creates: Seq::<IndexModel>::empty(),
            }),
            classify_all(st0, ixs) == classify_all(
                PlanState {
                    remaining: rem_model(remaining@),
                    drops: drops_model(to_drop@),
                    creates: creates_model(creates@),
                },
                ixs.skip(c as int),
            ),
            forall|p: int| 0 <= p < to_drop@.len() ==> (#[trigger] to_drop@[p])@ != "_id_"@,
        decreases cn - c,
    {
        let ghost st_prev = PlanState {
            remaining: rem_model(remaining@),
            drops: drops_model(to_drop@),
            creates: creates_model(creates@),
        };
        let ghost ixm = ixs[c as int];
        proof {
            assert(ixs.skip(c as int).first() == ixm);
            assert(ixs.skip(c as int).drop_first() =~= ixs.skip(c + 1));
        }
        let ix = &indexes.0[c];
        proof {
            assert(ix@ == ixm);
        }
        let text = ix.has_text_key();
        let mut doc = clone_index(ix).into_document();
        let ghost encoded = index_doc_model(ixm);
        let tkeys: Option<Value> = if text {
            match doc.get("key") {
                Some(v) => Some(clone_value(v)),
                None => None,
            }
        } else {
            None
        };
        proof {
            if text {
                match &tkeys {
                    Some(v) => assert(model_get(encoded, "key"@) == Some(v@)),
                    None => assert(model_get(encoded, "key"@) is None),
                }
            }
        }
        if text {
            let mut sentinel = Doc::new();
            sentinel.insert("_fts", Value::Text("text".to_owned()));
            sentinel.insert("_ftsx", Value::Int32(1));
            proof {
                reveal_strlit("_fts");
                reveal_strlit("_ftsx");
                assert("_fts"@.len() == 4);
                assert("_ftsx"@.len() == 5);
                assert(sentinel@ =~= text_sentinel_key());
            }
            doc.insert("key", Value::Subdoc(sentinel));
            proof {
                assert(doc@ == match_doc_model(ixm));
            }
        }
        proof {
            assert(doc@ == match_doc_model(ixm));
            crate::index::lemma_index_doc_has_key(ixm);
            if keys_have_text(ixm.keys) {
                crate::value::lemma_insert_get(
                    encoded,
                    "key"@,
                    ValueModel::Subdoc(text_sentinel_key()),
                    "key"@,
                );
            }
            assert(model_has_key(match_doc_model(ixm), "key"@));
        }
        let mk = match doc.get("key") {
            Some(v) => v,
            None => {
                proof {
                    assert(false);
                }
                unreached()
            },
        };
        proof {
            assert(mk@ == model_get(match_doc_model(ixm), "key"@)->Some_0);
        }
        let j = canon_find(&remaining, mk);
        proof {
            lemma_canon_index(rem_model(remaining@), mk@);
        }
        if j >= remaining.len() {
            proof {
                assert(!canon_has(st_prev.remaining, mk@));
            }
            creates.push(clone_index(ix));
            proof {
                assert(creates_model(creates@) =~= st_prev.creates.push(ixm));
                assert(classify_step(st_prev, ixm) == Ok::<PlanState, SyncError>(
                    PlanState {
                        remaining: rem_model(remaining@),
                        drops: drops_model(to_drop@),
                        creates: creates_model(creates@),
                    },
                ));
            }
        } else {
            let ghost rm_prev = st_prev.remaining;
            let (_, ex) = remaining.remove(j);
            proof {
                assert(rem_model(remaining@) =~= rm_prev.remove(j as int));
                assert(ex@ == rm_prev[j as int].1);
            }
            let mut stripped = ex;
            stripped.remove("ns");
            stripped.remove("v");
            proof {
                assert(stripped@ == strip_volatile(rm_prev[j as int].1));
            }
            let mut in_sync = false;
            let mut handled = false;
            if text {
                if let Some(Value::Subdoc(tk)) = &tkeys {
                    let wv = stripped.get("weights");
                    proof {
                        match wv {
                            Some(v) => crate::value::lemma_value_model_variants(*v),
                            None => (),
                        }
                    }
                    if let Some(Value::Subdoc(w)) = wv {
                        handled = true;
                        let expected = expected_text_weights(tk);
                        in_sync = doc_are_eq(w, &expected);
                    }
                }
            }
            proof {
                match &tkeys {
                    Some(v) => crate::value::lemma_value_model_variants(*v),
                    None => (),
                }
            }
            if !handled {
                in_sync = doc_are_eq(&doc, &stripped);
            }
            if in_sync {
                proof {
                    assert(classify_step(st_prev, ixm) == Ok::<PlanState, SyncError>(
                        PlanState {
                            remaining: rem_model(remaining@),
                            drops: drops_model(to_drop@),
                            creates: creates_model(creates@),
                        },
                    ));
                }
            } else {
                let nm = match stripped.get_str("name") {
                    Some(nm) => nm,
                    None => {
                        proof {
                            assert(classify_step(st_prev, ixm) == Err::<PlanState, SyncError>(
                                SyncError::MissingName,
                            ));
                            assert(classify_all(st0, ixs) == Err::<PlanState, SyncError>(
                                SyncError::MissingName,
                            ));
                        }
                        return Err(SyncError::MissingName);
                    },
                };
                let ghost drops_before = drops_model(to_drop@);
                if !(*nm == id_name) {
                    let nmc = nm.clone();
                    to_drop.push(nmc);
                    proof {
                        assert(drops_model(to_drop@) =~= drops_before.push(nm@));
                    }
                }
                creates.push(clone_index(ix));
                proof {
                    assert(creates_model(creates@) =~= st_prev.creates.push(ixm));
                    assert(classify_step(st_prev, ixm) == Ok::<PlanState, SyncError>(
                        PlanState {
                            remaining: rem_model(remaining@),
                            drops: drops_model(to_drop@),
                            creates: creates_model(creates@),
                        },
                    ));
                }
            }
        }
        c += 1;
    }
    proof {
        assert(ixs.skip(cn as int) =~= Seq::<IndexModel>::empty());
    }
    let ghost st_f = PlanState {
        remaining: rem_model(remaining@),
        drops: drops_model(to_drop@),
        creates: creates_model(creates@),
    };
    proof {
        assert(classify_all(st0, ixs) == Ok::<PlanState, SyncError>(st_f));
    }

    // Sweep the unmatched existing indexes.
    let ghost rm_f = rem_model(remaining@);
    let rn = remaining.len();
    let mut s: usize = 0;
    proof {
        assert(rm_f.skip(0) =~= rm_f);
    }
    while s < rn
        invariant
            0 <= s <= rn,
            rn == remaining@.len(),
            id_name@ == "_id_"@,
            ixs == indexes@,
            rm_f == rem_model(remaining@),
            build_existing(ds) == Ok::<Seq<(ValueModel, DocModel)>, SyncError>(rm0),
            classify_all(st0, ixs) == Ok::<PlanState, SyncError>(st_f),
            st0 == (PlanState {
                remaining: rm0,
                drops: Seq::<Seq<char>>::empty(),
                creates: Seq::<IndexModel>::empty(),
            }),
            st_f.remaining == rm_f,
            st_f.creates == creates_model(creates@),
            sweep_remaining(st_f.remaining, st_f.drops) == sweep_remaining(
                rm_f.skip(s as int),
                drops_model(to_drop@),
            ),
            forall|p: int| 0 <= p < to_drop@.len() ==> (#[trigger] to_drop@[p])@ != "_id_"@,
        decreases rn - s,
    {
        proof {
            assert(rm_f.skip(s as int).first() == rm_f[s as int]);
            assert(rm_f.skip(s as int).drop_first() =~= rm_f.skip(s + 1));
            assert(remaining@[s as int].1@ == rm_f[s as int].1);
        }
        let ghost drops_before = drops_model(to_drop@);
        let nm = match remaining[s].1.get_str("name") {
            Some(nm) => nm,
            None => {
                proof {
                    assert(sweep_remaining(rm_f.skip(s as int), drops_before) == Err::<
                        Seq<Seq<char>>,
                        SyncError,
                    >(SyncError::MissingName));
                }
                return Err(SyncError::MissingName);
            },
        };
        if !(*nm == id_name) {
            let nmc = nm.clone();
            to_drop.push(nmc);
            proof {
                assert(drops_model(to_drop@) =~= drops_before.push(nm@));
            }
        }
        s += 1;
    }
    proof {
        assert(rm_f.skip(rn as int) =~= Seq::<(ValueModel, DocModel)>::empty());
    }
    let p = SyncPlan { to_drop, to_create: Indexes(creates) };
    proof {
        assert(p.to_create@ =~= st_f.creates);
        assert(p@ == PlanModel { drops: drops_model(p.to_drop@), creates: st_f.creates });
        assert(plan_model(ixs, ds) == Ok::<PlanModel, SyncError>(p@));
    }
    Ok(p)
}

/// The plan computed from a raw listing response. A paginated response (a
/// cursor id other than zero) is refused: the first batch would not be the
/// whole inventory.
pub fn plan_from_listing(indexes: &Indexes, response: &Doc) -> (r: Result<SyncPlan, SyncError>)
    ensures
        match r {
            Ok(p) => plan_from_listing_model(indexes@, response@) == Ok::<PlanModel, SyncError>(
                p@,
            ) && (forall|i: int|
                0 <= i < p.to_drop@.len() ==> (#[trigger] p.to_drop@[i])@ != "_id_"@),
            Err(e) => plan_from_listing_model(indexes@, response@) == Err::<
                PlanModel,
                SyncError,
            >(e),
        },
{
    match parse_listing(response) {
        Ok(l) => {
            if l.cursor_id != 0 {
                Err(SyncError::IncompleteListing)
            } else {
                plan_sync(indexes, &l.batch)
            }
        },
        Err(e) => Err(e),
    }
}

} // verus!
