//! Library-wide laws of the identity-resolution algorithm, proved once and
//! for all over the builder's specification.

use vstd::prelude::*;

use crate::attrs::{attrs_lookup, attrs_match, attrs_merge, key_index, lemma_key_index, AttrsView};
use crate::model::{
    empty_model, lemma_match_index, match_index, spec_build, spec_resolve, spec_step, CiV, ModelV,
};

verus! {

/// The map carries at least one entry with a non-empty value.
pub open spec fn has_nonempty_entry(m: AttrsView) -> bool {
    exists|i: int| 0 <= i < m.len() && #[trigger] m[i].1.len() > 0
}

/// Key `k` carries a non-empty value somewhere in `m`.
pub open spec fn nonempty_key(m: AttrsView, k: Seq<char>) -> bool {
    exists|i: int| 0 <= i < m.len() && #[trigger] m[i].0 == k && m[i].1.len() > 0
}

/// No key carries a non-empty value in both maps.
pub open spec fn share_no_nonempty_key(x: AttrsView, y: AttrsView) -> bool {
    forall|k: Seq<char>| !(#[trigger] nonempty_key(x, k) && nonempty_key(y, k))
}

/// A candidate with at least one non-empty entry never partially matches a
/// map with which it shares no non-empty key.
pub proof fn lemma_no_match(x: AttrsView, y: AttrsView)
    requires
        has_nonempty_entry(x),
        share_no_nonempty_key(x, y),
    ensures
        !attrs_match(x, y),
{
    let i = choose|i: int| 0 <= i < x.len() && #[trigger] x[i].1.len() > 0;
    if attrs_match(x, y) {
        assert(attrs_lookup(y, x[i].0) == Some(x[i].1));
        lemma_key_index(y, x[i].0);
        let ki = key_index(y, x[i].0);
        assert(y[ki].0 == x[i].0 && y[ki].1 == x[i].1);
        assert(nonempty_key(x, x[i].0));
        assert(nonempty_key(y, x[i].0));
    }
}

/// Partial-match reuse under append order: if every non-empty-valued entry of
/// `a` agrees with `b` (that is, `a` partially matches `b`), then resolving
/// `b` in the empty model and then resolving `a` yields the same component id
/// for both, and `a` creates nothing.
///
/// The matching direction matters: the test runs candidate against existing
/// component only, so processing `a` first and `b` second need not reuse the
/// component (a candidate with an extra non-empty key never matches a
/// component that lacks that key).
pub proof fn lemma_partial_match_append_order(a: AttrsView, b: AttrsView)
    requires
        attrs_match(a, b),
    ensures
        ({
            let r1 = spec_resolve(empty_model(), b, Seq::empty(), false);
            let r2 = spec_resolve(r1.0, a, Seq::empty(), false);
            r2.1 == r1.1 && r2.0 == r1.0
        }),
{
    let r1 = spec_resolve(empty_model(), b, Seq::empty(), false);
    assert(match_index(empty_model().components, b) == -1);
    assert(r1.0.components.len() == 1);
    assert(r1.0.components[0].component_values == b);
    assert(attrs_match(a, r1.0.components[0].component_values));
    assert(match_index(r1.0.components, a) == 0);
}

/// An attribute entry with an empty value carries no matching weight: a
/// candidate extended by an empty-valued entry matches exactly the same
/// component maps.
pub proof fn lemma_empty_value_no_matching_weight(cand: AttrsView, k: Seq<char>, comp: AttrsView)
    ensures
        attrs_match(cand.push((k, Seq::empty())), comp) == attrs_match(cand, comp),
{
    let ext = cand.push((k, Seq::<char>::empty()));
    if attrs_match(cand, comp) {
        assert forall|i: int|
            0 <= i < ext.len() && #[trigger] ext[i].1.len() > 0 implies attrs_lookup(
            comp,
            ext[i].0,
        ) == Some(ext[i].1) by {
            assert(i < cand.len());
            assert(ext[i] == cand[i]);
        }
    }
    if attrs_match(ext, comp) {
        assert forall|i: int|
            0 <= i < cand.len() && #[trigger] cand[i].1.len() > 0 implies attrs_lookup(
            comp,
            cand[i].0,
        ) == Some(cand[i].1) by {
            assert(ext[i] == cand[i]);
            assert(ext[i].1.len() > 0);
        }
    }
}

/// An attribute entry with an empty value carries no display weight: it
/// contributes nothing to a node's label.
pub proof fn lemma_empty_value_no_display_weight(m: AttrsView, k: Seq<char>)
    ensures
        crate::dot::dot_label_body(m.push((k, Seq::empty()))) == crate::dot::dot_label_body(m),
    decreases m.len(),
{
    let ext = m.push((k, Seq::<char>::empty()));
    if m.len() == 0 {
        reveal_with_fuel(crate::dot::dot_label_body, 3);
        assert(ext[0] == (k, Seq::<char>::empty()));
        assert(ext.drop_first() =~= Seq::<(Seq<char>, Seq<char>)>::empty());
        assert(crate::dot::dot_label_body(ext) =~= crate::dot::dot_label_body(m));
    } else {
        assert(ext[0] == m[0]);
        assert(ext.drop_first() =~= m.drop_first().push((k, Seq::<char>::empty())));
        lemma_empty_value_no_display_weight(m.drop_first(), k);
    }
}

/// The stored attribute map of a component created for the source side of
/// `ci`: the source candidate with the additional source values merged in.
pub open spec fn stored_source(ci: CiV) -> AttrsView {
    attrs_merge(ci.source_component_values, ci.additional_source_component_values)
}

/// The hypothesis of the no-accidental-merging law: every candidate map has a
/// non-empty entry, and no two distinct sides (counting the source side in
/// its stored, merged form) share a non-empty key.
pub open spec fn pairwise_independent(cis: Seq<CiV>) -> bool {
    &&& forall|i: int|
        0 <= i < cis.len() ==> has_nonempty_entry(#[trigger] cis[i].source_component_values)
            && has_nonempty_entry(cis[i].target_component_values)
    &&& forall|i: int, j: int|
        0 <= j < i < cis.len() ==> share_no_nonempty_key(
            #[trigger] cis[i].source_component_values,
            stored_source(#[trigger] cis[j]),
        ) && share_no_nonempty_key(cis[i].source_component_values, cis[j].target_component_values)
            && share_no_nonempty_key(cis[i].target_component_values, stored_source(cis[j]))
            && share_no_nonempty_key(
            cis[i].target_component_values,
            cis[j].target_component_values,
        )
    &&& forall|i: int|
        0 <= i < cis.len() ==> share_no_nonempty_key(
            #[trigger] cis[i].target_component_values,
            stored_source(cis[i]),
        )
}

/// The component layout that the no-accidental-merging law guarantees: two
/// fresh components per record, holding the stored source map and the target
/// map of that record.
pub open spec fn fully_separate_layout(cis: Seq<CiV>, m: ModelV) -> bool {
    &&& m.components.len() == 2 * cis.len()
    &&& m.connectors.len() == cis.len()
    &&& forall|j: int|
        0 <= j < cis.len() ==> #[trigger] m.components[2 * j].component_values == stored_source(
            cis[j],
        ) && m.components[2 * j + 1].component_values == cis[j].target_component_values
}

/// No accidental merging: on pairwise-independent records, resolution never
/// reuses a component, so N records yield exactly 2N components and N
/// connectors.
pub proof fn lemma_no_accidental_merging(cis: Seq<CiV>)
    requires
        pairwise_independent(cis),
    ensures
        spec_build(cis).components.len() == 2 * cis.len(),
        spec_build(cis).connectors.len() == cis.len(),
        fully_separate_layout(cis, spec_build(cis)),
    decreases cis.len(),
{
    if cis.len() == 0 {
    } else {
        let pre = cis.drop_last();
        let c = cis.last();
        let n = pre.len() as int;
        assert(pairwise_independent(pre)) by {
            assert(forall|j: int| 0 <= j < pre.len() ==> pre[j] == cis[j]);
        }
        lemma_no_accidental_merging(pre);
        let m0 = spec_build(pre);
        assert(spec_build(cis) == spec_step(m0, c));

        // The source candidate of the last record matches no existing component.
        assert forall|j: int| 0 <= j < m0.components.len() implies !attrs_match(
            c.source_component_values,
            #[trigger] m0.components[j].component_values,
        ) by {
            let r = j / 2;
            assert(0 <= r < pre.len());
            assert(pre[r] == cis[r]);
            assert(m0.components[2 * r].component_values == stored_source(pre[r])
                && m0.components[2 * r + 1].component_values == pre[r].target_component_values);
            if j % 2 == 0 {
                assert(j == 2 * r);
                lemma_no_match(c.source_component_values, stored_source(cis[r]));
            } else {
                assert(j == 2 * r + 1);
                lemma_no_match(c.source_component_values, cis[r].target_component_values);
            }
        }
        lemma_match_index(m0.components, c.source_component_values);
        assert(match_index(m0.components, c.source_component_values) < 0);
        let r1 = spec_resolve(
            m0,
            c.source_component_values,
            c.additional_source_component_values,
            true,
        );
        assert(r1.0.components.len() == 2 * n + 1);
        assert(r1.0.components[2 * n].component_values == stored_source(c));

        // Neither does the target candidate, including against the component
        // just created for the source side.
        assert forall|j: int| 0 <= j < r1.0.components.len() implies !attrs_match(
            c.target_component_values,
            #[trigger] r1.0.components[j].component_values,
        ) by {
            if j < 2 * n {
                let r = j / 2;
                assert(0 <= r < pre.len());
                assert(pre[r] == cis[r]);
                assert(fully_separate_layout(pre, m0));
                assert(m0.components[2 * r].component_values == stored_source(pre[r]));
                assert(m0.components[2 * r + 1].component_values == pre[r].target_component_values);
                assert(r1.0.components[j] == m0.components[j]);
                if j % 2 == 0 {
                    assert(j == 2 * r);
                    lemma_no_match(c.target_component_values, stored_source(cis[r]));
                } else {
                    assert(j == 2 * r + 1);
                    lemma_no_match(c.target_component_values, cis[r].target_component_values);
                }
            } else {
                assert(j == 2 * n);
                lemma_no_match(c.target_component_values, stored_source(c));
            }
        }
        lemma_match_index(r1.0.components, c.target_component_values);
        assert(match_index(r1.0.components, c.target_component_values) < 0);
        let r2 = spec_resolve(
            r1.0,
            c.target_component_values,
            c.additional_source_component_values,
            false,
        );
        assert(r2.0.components.len() == 2 * n + 2);
        assert(r2.0.components[2 * n + 1].component_values == c.target_component_values);

        let out = spec_step(m0, c);
        assert(out.connectors.len() == n + 1);
        assert forall|j: int| 0 <= j < cis.len() implies #[trigger] out.components[2 * j].component_values
            == stored_source(cis[j]) && out.components[2 * j + 1].component_values
            == cis[j].target_component_values by {
            if j < n {
                assert(pre[j] == cis[j]);
                assert(fully_separate_layout(pre, m0));
                assert(m0.components[2 * j].component_values == stored_source(pre[j]));
                assert(m0.components[2 * j + 1].component_values == pre[j].target_component_values);
                assert(out.components[2 * j] == m0.components[2 * j]);
                assert(out.components[2 * j + 1] == m0.components[2 * j + 1]);
            } else {
                assert(j == n);
                assert(out.components[2 * n] == r1.0.components[2 * n]);
                assert(out.components[2 * n + 1] == r2.0.components[2 * n + 1]);
            }
        }
    }
}

} // verus!
