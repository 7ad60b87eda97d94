//! The properties the library promises, stated and proved over the spec
//! functions that the contracts use.

use vstd::prelude::*;

use crate::index::IndexKeyModel;
use crate::index::IndexModel;
use crate::index::IndexOptionModel;
use crate::index::default_name;
use crate::index::index_doc_model;
use crate::index::key_doc_model;
use crate::index::keys_have_text;
use crate::index::option_wire_key;
use crate::index::option_wire_value;
use crate::index::options_doc_model;
use crate::sync::PlanModel;
use crate::sync::PlanState;
use crate::sync::SyncError;
use crate::sync::build_existing;
use crate::sync::build_existing_from;
use crate::sync::canon_has;
use crate::sync::canon_index;
use crate::sync::classify_all;
use crate::sync::lemma_canon_index;
use crate::sync::classify_step;
use crate::sync::drop_matched;
use crate::sync::match_doc_model;
use crate::sync::rewrite_text_weights;
use crate::sync::plan_model;
use crate::sync::strip_volatile;
use crate::sync::sweep_remaining;
use crate::value::DocModel;
use crate::value::ValueModel;
use crate::value::keys_unique;
use crate::value::canon_eq;
use crate::value::dm_eq;
use crate::value::lemma_first_index;
use crate::value::model_first_index;
use crate::value::lemma_insert_get;
use crate::value::model_get;
use crate::value::model_has_key;

verus! {

/// After appending options, a key that no option writes holds what the base
/// held.
pub proof fn lemma_options_fold_other(base: DocModel, opts: Seq<IndexOptionModel>, k: Seq<char>)
    requires
        forall|p: int| 0 <= p < opts.len() ==> option_wire_key(#[trigger] opts[p]) != k,
    ensures
        model_get(options_doc_model(base, opts), k) == model_get(base, k),
        model_has_key(options_doc_model(base, opts), k) == model_has_key(base, k),
    decreases opts.len(),
{
    if opts.len() > 0 {
        lemma_options_fold_other(base, opts.drop_last(), k);
        lemma_insert_get(
            options_doc_model(base, opts.drop_last()),
            option_wire_key(opts.last()),
            option_wire_value(opts.last()),
            k,
        );
    }
}

/// After appending options, a key holds the value of the last option that
/// writes it.
pub proof fn lemma_options_fold_last(
    base: DocModel,
    opts: Seq<IndexOptionModel>,
    k: Seq<char>,
    j: int,
)
    requires
        0 <= j < opts.len(),
        option_wire_key(opts[j]) == k,
        forall|p: int| j < p < opts.len() ==> option_wire_key(#[trigger] opts[p]) != k,
    ensures
        model_get(options_doc_model(base, opts), k) == Some(option_wire_value(opts[j])),
        model_has_key(options_doc_model(base, opts), k),
    decreases opts.len(),
{
    if j == opts.len() - 1 {
        lemma_insert_get(
            options_doc_model(base, opts.drop_last()),
            option_wire_key(opts.last()),
            option_wire_value(opts.last()),
            k,
        );
    } else {
        lemma_options_fold_last(base, opts.drop_last(), k, j);
        assert(opts.drop_last()[j] == opts[j]);
        lemma_insert_get(
            options_doc_model(base, opts.drop_last()),
            option_wire_key(opts.last()),
            option_wire_value(opts.last()),
            k,
        );
    }
}

/// An explicit name wins: when some option writes the "name" key, the
/// encoded document's "name" is the last such option's value, whatever the
/// key composition derives.
pub proof fn lemma_explicit_name_wins(ix: IndexModel, j: int)
    requires
        0 <= j < ix.options.len(),
        option_wire_key(ix.options[j]) == "name"@,
        forall|p: int| j < p < ix.options.len() ==> option_wire_key(#[trigger] ix.options[p])
            != "name"@,
    ensures
        model_get(index_doc_model(ix), "name"@) == Some(option_wire_value(ix.options[j])),
{
    let base = seq![("key"@, ValueModel::Subdoc(key_doc_model(ix.keys)))];
    lemma_options_fold_last(base, ix.options, "name"@, j);
}

/// Default naming: when no option writes the "name" key, the encoded
/// document's "name" is the name derived from the keys.
pub proof fn lemma_default_name_used(ix: IndexModel)
    requires
        forall|p: int| 0 <= p < ix.options.len() ==> option_wire_key(#[trigger] ix.options[p])
            != "name"@,
    ensures
        model_get(index_doc_model(ix), "name"@) == Some(
            ValueModel::Text(default_name(ix.keys)),
        ),
{
    let base = seq![("key"@, ValueModel::Subdoc(key_doc_model(ix.keys)))];
    reveal_strlit("key");
    reveal_strlit("name");
    assert("key"@.len() == 3);
    assert("name"@.len() == 4);
    assert("key"@ != "name"@);
    lemma_first_index(base, "name"@);
    assert(!model_has_key(base, "name"@));
    lemma_options_fold_other(base, ix.options, "name"@);
    let with_opts = options_doc_model(base, ix.options);
    lemma_insert_get(with_opts, "name"@, ValueModel::Text(default_name(ix.keys)), "name"@);
}

/// The expected weights of a declared text index: each declared field keeps
/// its position and name; every field declared as a text key carries the
/// default weight 1, every other field keeps its declared value.
pub proof fn lemma_text_weight_normalization(d: DocModel)
    requires
        keys_unique(d),
    ensures
        rewrite_text_weights(d).len() == d.len(),
        forall|i: int| 0 <= i < d.len() ==> (#[trigger] rewrite_text_weights(d)[i]).0 == d[i].0,
        forall|i: int|
            0 <= i < d.len() ==> (#[trigger] rewrite_text_weights(d)[i]).1 == if d[i].1
                == ValueModel::Text("text"@) {
                ValueModel::Int32(1)
            } else {
                d[i].1
            },
    decreases d.len(),
{
    if d.len() > 0 {
        let dl = d.drop_last();
        assert(keys_unique(dl)) by {
            assert(forall|i: int| 0 <= i < dl.len() ==> dl[i] == d[i]);
        }
        lemma_text_weight_normalization(dl);
        let r = rewrite_text_weights(dl);
        let k = d.last().0;
        lemma_first_index(r, k);
        if model_has_key(r, k) {
            let w = model_first_index(r, k);
            assert(r[w].0 == k);
            assert(dl[w].0 == k);
            assert(d[w].0 == d[d.len() - 1].0);
            assert(false);
        }
    }
}

/// The declared "key" sub-document of any index always satisfies the
/// normalization above: every field declared as a text key is expected with
/// the default weight 1, every sort field with its declared direction.
pub proof fn lemma_declared_weights_normalized(keys: Seq<IndexKeyModel>)
    ensures
        rewrite_text_weights(key_doc_model(keys)).len() == key_doc_model(keys).len(),
        forall|i: int|
            0 <= i < key_doc_model(keys).len() ==> (#[trigger] rewrite_text_weights(
                key_doc_model(keys),
            )[i]).0 == key_doc_model(keys)[i].0,
        forall|i: int|
            0 <= i < key_doc_model(keys).len() ==> (#[trigger] rewrite_text_weights(
                key_doc_model(keys),
            )[i]).1 == if key_doc_model(keys)[i].1 == ValueModel::Text("text"@) {
                ValueModel::Int32(1)
            } else {
                key_doc_model(keys)[i].1
            },
{
    crate::index::lemma_key_doc_unique(keys);
    lemma_text_weight_normalization(key_doc_model(keys));
}

/// Text-index weight normalization at the classification step: a matched
/// text index whose existing weights equal the normalized declared weights
/// is in sync and left alone; one with any other weights is scheduled for
/// drop (by the existing index's name) and recreation.
pub proof fn lemma_text_index_classification(st: PlanState, ix: IndexModel)
    requires
        keys_have_text(ix.keys),
        model_get(index_doc_model(ix), "key"@) matches Some(ValueModel::Subdoc(_)),
        canon_has(st.remaining, model_get(match_doc_model(ix), "key"@)->Some_0),
        model_get(
            strip_volatile(
                st.remaining[canon_index(
                    st.remaining,
                    model_get(match_doc_model(ix), "key"@)->Some_0,
                )].1,
            ),
            "weights"@,
        ) matches Some(ValueModel::Subdoc(_)),
    ensures
        ({
            let j = canon_index(st.remaining, model_get(match_doc_model(ix), "key"@)->Some_0);
            let stripped = strip_volatile(st.remaining[j].1);
            let w = model_get(stripped, "weights"@)->Some_0->Subdoc_0;
            let expected = rewrite_text_weights(
                model_get(index_doc_model(ix), "key"@)->Some_0->Subdoc_0,
            );
            if dm_eq(w, expected) {
                classify_step(st, ix) == Ok::<PlanState, SyncError>(
                    PlanState {
                        remaining: st.remaining.remove(j),
                        drops: st.drops,
                        creates: st.creates,
                    },
                )
            } else {
                classify_step(st, ix) == drop_matched(st, st.remaining.remove(j), stripped, ix)
            }
        }),
{
}

/// The canonical key a descriptor is registered under.
pub open spec fn ex_key(d: DocModel) -> ValueModel {
    model_get(d, "key"@)->Some_0
}

/// The key a declared index is looked up under.
pub open spec fn match_key_of(ix: IndexModel) -> ValueModel {
    model_get(match_doc_model(ix), "key"@)->Some_0
}

/// A declared index agrees with an existing descriptor: for a matched text
/// index with reported weights, the weights equal the normalized declared
/// weights; otherwise the whole encoded fragment equals the descriptor
/// without its volatile metadata.
pub open spec fn in_sync_with(ix: IndexModel, d: DocModel) -> bool {
    let encoded = index_doc_model(ix);
    let text = keys_have_text(ix.keys);
    let mdoc = match_doc_model(ix);
    let stripped = strip_volatile(d);
    let tkeys = model_get(encoded, "key"@);
    let wopt = model_get(stripped, "weights"@);
    if text && (tkeys matches Some(ValueModel::Subdoc(_))) && (wopt matches Some(
        ValueModel::Subdoc(_),
    )) {
        dm_eq(wopt->Some_0->Subdoc_0, rewrite_text_weights(tkeys->Some_0->Subdoc_0))
    } else {
        dm_eq(mdoc, stripped)
    }
}

/// The registered pairs of the descriptors at the given positions.
pub open spec fn pairs_of(existing: Seq<DocModel>, live: Seq<int>) -> Seq<(ValueModel, DocModel)> {
    Seq::new(live.len(), |p: int| (ex_key(existing[live[p]]), existing[live[p]]))
}

/// Building the map from descriptors with pairwise distinct canonical keys
/// registers each descriptor once, in order.
proof fn lemma_build_distinct_from(existing: Seq<DocModel>, k: int)
    requires
        forall|j: int| 0 <= j < existing.len() ==> model_get(#[trigger] existing[j], "key"@) is Some,
        forall|j1: int, j2: int|
            0 <= j1 < j2 < existing.len() ==> !canon_eq(
                ex_key(#[trigger] existing[j1]),
                ex_key(#[trigger] existing[j2]),
            ),
        0 <= k <= existing.len(),
    ensures
        build_existing_from(
            pairs_of(existing, Seq::new(k as nat, |j: int| j)),
            existing.skip(k),
        ) == Ok::<Seq<(ValueModel, DocModel)>, SyncError>(
            pairs_of(existing, Seq::new(existing.len(), |j: int| j)),
        ),
    decreases existing.len() - k,
{
    let acc = pairs_of(existing, Seq::new(k as nat, |j: int| j));
    if k == existing.len() {
        assert(existing.skip(k) =~= Seq::<DocModel>::empty());
        assert(acc =~= pairs_of(existing, Seq::new(existing.len(), |j: int| j)));
    } else {
        let d = existing[k];
        assert(existing.skip(k).first() == d);
        assert(existing.skip(k).drop_first() =~= existing.skip(k + 1));
        let kk = ex_key(d);
        assert(forall|p: int| 0 <= p < acc.len() ==> (#[trigger] acc[p]).0 == ex_key(existing[p]));
        assert(!canon_has(acc, kk)) by {
            if canon_has(acc, kk) {
                let w = choose|p: int| 0 <= p < acc.len() && canon_eq(acc[p].0, kk);
                assert(canon_eq(ex_key(existing[w]), ex_key(existing[k as int])));
                assert(false);
            }
        }
        assert(acc.push((kk, d)) =~= pairs_of(existing, Seq::new((k + 1) as nat, |j: int| j)));
        lemma_build_distinct_from(existing, k + 1);
    }
}

/// Classifying declared indexes that each agree with the one existing
/// descriptor matching their key drops nothing, creates nothing, and leaves
/// exactly the descriptors no declared index matches.
proof fn lemma_classify_in_sync(
    ixs: Seq<IndexModel>,
    existing: Seq<DocModel>,
    f: Seq<int>,
    live: Seq<int>,
    g: Seq<int>,
    i: int,
    drops: Seq<Seq<char>>,
    creates: Seq<IndexModel>,
)
    requires
        0 <= i <= ixs.len(),
        f.len() == ixs.len(),
        forall|p: int| 0 <= p < f.len() ==> 0 <= #[trigger] f[p] < existing.len(),
        forall|p: int|
            0 <= p < ixs.len() ==> canon_eq(ex_key(existing[f[p]]), match_key_of(#[trigger] ixs[p])),
        forall|p: int, j: int|
            0 <= p < ixs.len() && 0 <= j < existing.len() && canon_eq(
                ex_key(#[trigger] existing[j]),
                match_key_of(#[trigger] ixs[p]),
            ) ==> j == f[p],
        forall|p1: int, p2: int| 0 <= p1 < p2 < ixs.len() ==> f[p1] != f[p2],
        forall|p: int| 0 <= p < ixs.len() ==> in_sync_with(#[trigger] ixs[p], existing[f[p]]),
        forall|p: int| 0 <= p < live.len() ==> 0 <= #[trigger] live[p] < existing.len(),
        forall|p1: int, p2: int| 0 <= p1 < p2 < live.len() ==> live[p1] != live[p2],
        forall|p: int, q: int|
            0 <= p < live.len() && 0 <= q < i ==> #[trigger] live[p] != #[trigger] f[q],
        g.len() == ixs.len(),
        forall|q: int|
            i <= q < ixs.len() ==> 0 <= #[trigger] g[q] < live.len() && live[g[q]] == f[q],
    ensures
        classify_all(
            PlanState { remaining: pairs_of(existing, live), drops, creates },
            ixs.skip(i),
        ) matches Ok(st2) && st2.drops == drops && st2.creates == creates && (forall|p: int|
            0 <= p < st2.remaining.len() ==> exists|j: int|
                0 <= j < existing.len() && (#[trigger] st2.remaining[p]) == (
                    ex_key(existing[j]),
                    existing[j],
                ) && !(exists|q: int| 0 <= q < ixs.len() && f[q] == j)),
    decreases ixs.len() - i,
{
    let st = PlanState { remaining: pairs_of(existing, live), drops, creates };
    if i == ixs.len() {
        assert(ixs.skip(i) =~= Seq::<IndexModel>::empty());
        assert(classify_all(st, ixs.skip(i)) == Ok::<PlanState, SyncError>(st));
        assert forall|p: int| 0 <= p < st.remaining.len() implies exists|j: int|
            0 <= j < existing.len() && (#[trigger] st.remaining[p]) == (
                ex_key(existing[j]),
                existing[j],
            ) && !(exists|q: int| 0 <= q < ixs.len() && f[q] == j) by {
            let j = live[p];
            assert(st.remaining[p] == (ex_key(existing[j]), existing[j]));
            assert(!(exists|q: int| 0 <= q < ixs.len() && f[q] == j)) by {
                if exists|q: int| 0 <= q < ixs.len() && f[q] == j {
                    let q = choose|q: int| 0 <= q < ixs.len() && f[q] == j;
                    assert(live[p] != f[q]);
                    assert(false);
                }
            }
        }
    } else {
        let ix = ixs[i];
        assert(ixs.skip(i).first() == ix);
        assert(ixs.skip(i).drop_first() =~= ixs.skip(i + 1));
        let mk = match_key_of(ix);
        // the matching descriptor is still live
        let pstar = g[i];
        assert(live[pstar] == f[i]);
        assert(st.remaining[pstar].0 == ex_key(existing[f[i]]));
        assert(canon_eq(st.remaining[pstar].0, mk));
        assert(canon_has(st.remaining, mk));
        lemma_canon_index(st.remaining, mk);
        let j0 = canon_index(st.remaining, mk);
        assert(canon_eq(st.remaining[j0].0, mk));
        assert(st.remaining[j0].0 == ex_key(existing[live[j0]]));
        assert(live[j0] == f[i]);
        // the step keeps the state, minus the matched descriptor
        let rem2 = st.remaining.remove(j0);
        assert(in_sync_with(ix, existing[f[i]]));
        assert(st.remaining[j0].1 == existing[f[i]]);
        let st2 = PlanState { remaining: rem2, drops, creates };
        assert(classify_step(st, ix) == Ok::<PlanState, SyncError>(st2));
        // the smaller live set satisfies every hypothesis at i + 1
        let live2 = live.remove(j0);
        assert(rem2 =~= pairs_of(existing, live2)) by {
            assert(forall|p: int| 0 <= p < j0 ==> live2[p] == live[p]);
            assert(forall|p: int| j0 <= p < live2.len() ==> live2[p] == live[p + 1]);
        }
        assert forall|p: int, q: int|
            0 <= p < live2.len() && 0 <= q < i + 1 implies #[trigger] live2[p] != #[trigger] f[q] by {
            if p < j0 {
                assert(live2[p] == live[p]);
                if q == i && live[p] == f[i] {
                    assert(live[p] == live[j0]);
                    assert(false);
                }
            } else {
                assert(live2[p] == live[p + 1]);
                if q == i && live[p + 1] == f[i] {
                    assert(live[p + 1] == live[j0]);
                    assert(false);
                }
            }
        }
        let g2 = Seq::new(g.len(), |q: int| if i + 1 <= q < g.len() && g[q] > j0 {
            g[q] - 1
        } else if 0 <= q < g.len() {
            g[q]
        } else {
            0
        });
        assert forall|q: int| i + 1 <= q < ixs.len() implies 0 <= #[trigger] g2[q] < live2.len()
            && live2[g2[q]] == f[q] by {
            assert(0 <= g[q] < live.len() && live[g[q]] == f[q]);
            assert(f[q] != f[i]);
            assert(g[q] != j0);
            if g[q] < j0 {
                assert(g2[q] == g[q]);
                assert(live2[g[q]] == live[g[q]]);
            } else {
                assert(g2[q] == g[q] - 1);
                assert(live2[g[q] - 1] == live[g[q]]);
            }
        }
        lemma_classify_in_sync(ixs, existing, f, live2, g2, i + 1, drops, creates);
    }
}

/// Sweeping descriptors that are all the protected primary-key index drops
/// nothing.
proof fn lemma_sweep_protected(rem: Seq<(ValueModel, DocModel)>, drops: Seq<Seq<char>>)
    requires
        forall|p: int|
            0 <= p < rem.len() ==> model_get((#[trigger] rem[p]).1, "name"@) == Some(
                ValueModel::Text("_id_"@),
            ),
    ensures
        sweep_remaining(rem, drops) == Ok::<Seq<Seq<char>>, SyncError>(drops),
    decreases rem.len(),
{
    if rem.len() > 0 {
        assert(rem.first() == rem[0]);
        let t = rem.drop_first();
        assert(forall|p: int| 0 <= p < t.len() ==> t[p] == rem[p + 1]);
        lemma_sweep_protected(t, drops);
    }
}

/// Idempotence: against a collection already synchronized to the declared
/// index list — every declared index is canonically matched by exactly one
/// existing descriptor, with which it agrees, no two descriptors share a
/// canonical key, and every unmatched descriptor is the protected
/// primary-key index — the plan drops nothing and creates nothing.
pub proof fn lemma_sync_idempotent(ixs: Seq<IndexModel>, existing: Seq<DocModel>, f: Seq<int>)
    requires
        forall|j: int| 0 <= j < existing.len() ==> model_get(#[trigger] existing[j], "key"@) is Some,
        forall|j1: int, j2: int|
            0 <= j1 < j2 < existing.len() ==> !canon_eq(
                ex_key(#[trigger] existing[j1]),
                ex_key(#[trigger] existing[j2]),
            ),
        f.len() == ixs.len(),
        forall|p: int| 0 <= p < f.len() ==> 0 <= #[trigger] f[p] < existing.len(),
        forall|p: int|
            0 <= p < ixs.len() ==> canon_eq(ex_key(existing[f[p]]), match_key_of(#[trigger] ixs[p])),
        forall|p: int, j: int|
            0 <= p < ixs.len() && 0 <= j < existing.len() && canon_eq(
                ex_key(#[trigger] existing[j]),
                match_key_of(#[trigger] ixs[p]),
            ) ==> j == f[p],
        forall|p1: int, p2: int| 0 <= p1 < p2 < ixs.len() ==> f[p1] != f[p2],
        forall|p: int| 0 <= p < ixs.len() ==> in_sync_with(#[trigger] ixs[p], existing[f[p]]),
        forall|j: int|
            0 <= j < existing.len() && !(exists|q: int| 0 <= q < ixs.len() && f[q] == j)
                ==> model_get(#[trigger] existing[j], "name"@) == Some(ValueModel::Text("_id_"@)),
    ensures
        plan_model(ixs, existing) == Ok::<PlanModel, SyncError>(
            PlanModel { drops: Seq::empty(), creates: Seq::empty() },
        ),
{
    let idx = Seq::new(existing.len(), |j: int| j);
    lemma_build_distinct_from(existing, 0);
    assert(pairs_of(existing, Seq::new(0 as nat, |j: int| j)) =~= Seq::<
        (ValueModel, DocModel),
    >::empty());
    assert(existing.skip(0) =~= existing);
    assert(build_existing(existing) == Ok::<Seq<(ValueModel, DocModel)>, SyncError>(
        pairs_of(existing, idx),
    ));
    assert forall|q: int| 0 <= q < ixs.len() implies 0 <= #[trigger] f[q] < idx.len() && idx[f[q]]
        == f[q] by {
        assert(idx[f[q]] == f[q]);
    }
    lemma_classify_in_sync(ixs, existing, f, idx, f, 0, Seq::empty(), Seq::empty());
    assert(ixs.skip(0) =~= ixs);
    let st2 = classify_all(
        PlanState {
            remaining: pairs_of(existing, idx),
            drops: Seq::empty(),
            creates: Seq::empty(),
        },
        ixs,
    )->Ok_0;
    assert forall|p: int| 0 <= p < st2.remaining.len() implies model_get(
        (#[trigger] st2.remaining[p]).1,
        "name"@,
    ) == Some(ValueModel::Text("_id_"@)) by {
        let j = choose|j: int|
            0 <= j < existing.len() && st2.remaining[p] == (ex_key(existing[j]), existing[j]) && !(
            exists|q: int| 0 <= q < ixs.len() && f[q] == j);
    }
    lemma_sweep_protected(st2.remaining, st2.drops);
}

} // verus!
