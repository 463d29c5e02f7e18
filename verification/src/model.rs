//! The execution view model and its builder.
//!
//! The builder folds an ordered sequence of connector instances into a model,
//! resolving each side of every instance to a component id.  Resolution scans
//! the components already in the model in insertion order and reuses the first
//! one that the candidate attribute map partially matches; otherwise it
//! appends a fresh component.  One connector is appended per instance;
//! connectors are never deduplicated.
//!
//! Component ids are `"c"` followed by the component's creation index in
//! decimal, which makes them unique within a model by construction.

use vstd::prelude::*;

use crate::attrs::{
    attrs_match, attrs_merge, attrs_wf, AttrMap, AttrsView,
};
use crate::strings::{dec_digits, lemma_dec_digits_injective, push_char, u64_to_dec};

verus! {

/// One observed interaction between two components.
pub struct Ci {
    pub connector_type: String,
    pub source_component_values: AttrMap,
    pub target_component_values: AttrMap,
    /// Merged into a newly created source component only; entries here win
    /// over the source candidate's own entries on a key collision.
    pub additional_source_component_values: AttrMap,
}

/// A node of the execution view model.
pub struct Component {
    pub id: String,
    pub component_values: AttrMap,
}

/// A directed, typed edge of the execution view model.
pub struct Connector {
    pub connector_type: String,
    pub source_component_id: String,
    pub target_component_id: String,
}

/// The execution view model: components and connectors in insertion order.
pub struct Model {
    pub components: Vec<Component>,
    pub connectors: Vec<Connector>,
}

pub ghost struct CiV {
    pub connector_type: Seq<char>,
    pub source_component_values: AttrsView,
    pub target_component_values: AttrsView,
    pub additional_source_component_values: AttrsView,
}

pub ghost struct ComponentV {
    pub id: Seq<char>,
    pub component_values: AttrsView,
}

pub ghost struct ConnectorV {
    pub connector_type: Seq<char>,
    pub source_component_id: Seq<char>,
    pub target_component_id: Seq<char>,
}

pub ghost struct ModelV {
    pub components: Seq<ComponentV>,
    pub connectors: Seq<ConnectorV>,
}

impl View for Ci {
    type V = CiV;

    open spec fn view(&self) -> CiV {
        CiV {
            connector_type: self.connector_type@,
            source_component_values: self.source_component_values@,
            target_component_values: self.target_component_values@,
            additional_source_component_values: self.additional_source_component_values@,
        }
    }
}

impl View for Component {
    type V = ComponentV;

    open spec fn view(&self) -> ComponentV {
        ComponentV { id: self.id@, component_values: self.component_values@ }
    }
}

impl View for Connector {
    type V = ConnectorV;

    open spec fn view(&self) -> ConnectorV {
        ConnectorV {
            connector_type: self.connector_type@,
            source_component_id: self.source_component_id@,
            target_component_id: self.target_component_id@,
        }
    }
}

pub open spec fn components_view(components: Seq<Component>) -> Seq<ComponentV> {
    components.map_values(|c: Component| c@)
}

pub open spec fn connectors_view(connectors: Seq<Connector>) -> Seq<ConnectorV> {
    connectors.map_values(|c: Connector| c@)
}

pub open spec fn cis_view(cis: Seq<Ci>) -> Seq<CiV> {
    cis.map_values(|c: Ci| c@)
}

impl View for Model {
    type V = ModelV;

    open spec fn view(&self) -> ModelV {
        ModelV {
            components: components_view(self.components@),
            connectors: connectors_view(self.connectors@),
        }
    }
}

/// The id of the component created at index `n`: "c" followed by `n` in
/// decimal.
pub open spec fn id_seq(n: nat) -> Seq<char> {
    seq!['c'] + dec_digits(n)
}

pub proof fn lemma_id_seq_injective(a: nat, b: nat)
    requires
        id_seq(a) == id_seq(b),
    ensures
        a == b,
{
    assert(id_seq(a).drop_first() =~= dec_digits(a));
    assert(id_seq(b).drop_first() =~= dec_digits(b));
    lemma_dec_digits_injective(a, b);
}

pub open spec fn empty_model() -> ModelV {
    ModelV { components: Seq::empty(), connectors: Seq::empty() }
}

/// Index of the first component that `cand` partially matches, or -1.
pub open spec fn match_index(comps: Seq<ComponentV>, cand: AttrsView) -> int
    decreases comps.len(),
{
    if comps.len() == 0 {
        -1
    } else if attrs_match(cand, comps[0].component_values) {
        0
    } else {
        let r = match_index(comps.drop_first(), cand);
        if r < 0 {
            -1
        } else {
            r + 1
        }
    }
}

pub proof fn lemma_match_index(comps: Seq<ComponentV>, cand: AttrsView)
    ensures
        -1 <= match_index(comps, cand) < comps.len(),
        match_index(comps, cand) >= 0 ==> attrs_match(
            cand,
            comps[match_index(comps, cand)].component_values,
        ),
        match_index(comps, cand) < 0 ==> forall|j: int|
            0 <= j < comps.len() ==> !attrs_match(cand, #[trigger] comps[j].component_values),
        forall|j: int|
            0 <= j < match_index(comps, cand) ==> !attrs_match(
                cand,
                #[trigger] comps[j].component_values,
            ),
    decreases comps.len(),
{
    if comps.len() > 0 && !attrs_match(cand, comps[0].component_values) {
        lemma_match_index(comps.drop_first(), cand);
        assert forall|j: int|
            0 <= j < comps.len() && attrs_match(
                cand,
                #[trigger] comps[j].component_values,
            ) implies match_index(comps, cand) >= 0 by {
            if j > 0 {
                assert(comps.drop_first()[j - 1] == comps[j]);
            }
        }
        assert forall|j: int| 0 <= j < match_index(comps, cand) implies !attrs_match(
            cand,
            #[trigger] comps[j].component_values,
        ) by {
            if j > 0 {
                assert(comps.drop_first()[j - 1] == comps[j]);
            }
        }
    }
}

pub proof fn lemma_match_index_first(comps: Seq<ComponentV>, cand: AttrsView, i: int)
    requires
        0 <= i < comps.len(),
        attrs_match(cand, comps[i].component_values),
        forall|j: int| 0 <= j < i ==> !attrs_match(cand, #[trigger] comps[j].component_values),
    ensures
        match_index(comps, cand) == i,
    decreases comps.len(),
{
    if !attrs_match(cand, comps[0].component_values) {
        assert forall|j: int| 0 <= j < i - 1 implies !attrs_match(
            cand,
            #[trigger] comps.drop_first()[j].component_values,
        ) by {
            assert(comps.drop_first()[j] == comps[j + 1]);
        }
        assert(comps.drop_first()[i - 1] == comps[i]);
        lemma_match_index_first(comps.drop_first(), cand, i - 1);
    }
}

/// The id that resolving `cand` in `m` yields, and the model afterwards.
/// The first partially matching component (in insertion order) is reused
/// untouched; if none matches, a fresh component is appended whose stored map
/// is the candidate map, with `extra` merged in (`extra` wins on key
/// collisions) when the candidate is a source side.
pub open spec fn spec_resolve(
    m: ModelV,
    cand: AttrsView,
    extra: AttrsView,
    is_source: bool,
) -> (ModelV, Seq<char>) {
    let i = match_index(m.components, cand);
    if i >= 0 {
        (m, m.components[i].id)
    } else {
        let id = id_seq(m.components.len());
        let stored = if is_source {
            attrs_merge(cand, extra)
        } else {
            cand
        };
        (
            ModelV {
                components: m.components.push(ComponentV { id, component_values: stored }),
                connectors: m.connectors,
            },
            id,
        )
    }
}

/// One fold step: resolve the source side, then the target side, then append
/// the connector.
pub open spec fn spec_step(m: ModelV, ci: CiV) -> ModelV {
    let r1 = spec_resolve(m, ci.source_component_values, ci.additional_source_component_values, true);
    let r2 = spec_resolve(
        r1.0,
        ci.target_component_values,
        ci.additional_source_component_values,
        false,
    );
    ModelV {
        components: r2.0.components,
        connectors: r2.0.connectors.push(
            ConnectorV {
                connector_type: ci.connector_type,
                source_component_id: r1.1,
                target_component_id: r2.1,
            },
        ),
    }
}

/// The model built from `cis`, strictly in order, starting from the empty
/// model.
pub open spec fn spec_build(cis: Seq<CiV>) -> ModelV
    decreases cis.len(),
{
    if cis.len() == 0 {
        empty_model()
    } else {
        spec_step(spec_build(cis.drop_last()), cis.last())
    }
}

/// Every component id is the canonical id of its index.
pub open spec fn ids_canonical(m: ModelV) -> bool {
    forall|i: int| 0 <= i < m.components.len() ==> #[trigger] m.components[i].id == id_seq(i as nat)
}

pub open spec fn has_component_id(m: ModelV, id: Seq<char>) -> bool {
    exists|i: int| 0 <= i < m.components.len() && #[trigger] m.components[i].id == id
}

/// The model invariants: unique component ids, well-formed attribute maps,
/// and connectors that reference components present in the model.
pub open spec fn model_wf(m: ModelV) -> bool {
    &&& forall|i: int, j: int|
        0 <= i < j < m.components.len() ==> #[trigger] m.components[i].id != #[trigger] m.components[j].id
    &&& forall|i: int|
        0 <= i < m.components.len() ==> attrs_wf(#[trigger] m.components[i].component_values)
    &&& forall|k: int|
        0 <= k < m.connectors.len() ==> has_component_id(m, #[trigger] m.connectors[k].source_component_id)
            && has_component_id(m, m.connectors[k].target_component_id)
}

pub open spec fn ci_wf(ci: CiV) -> bool {
    &&& attrs_wf(ci.source_component_values)
    &&& attrs_wf(ci.target_component_values)
    &&& attrs_wf(ci.additional_source_component_values)
}

pub proof fn lemma_canonical_ids_distinct(m: ModelV)
    requires
        ids_canonical(m),
    ensures
        forall|i: int, j: int|
            0 <= i < j < m.components.len() ==> #[trigger] m.components[i].id
                != #[trigger] m.components[j].id,
{
    assert forall|i: int, j: int|
        0 <= i < j < m.components.len() implies #[trigger] m.components[i].id
        != #[trigger] m.components[j].id by {
        if m.components[i].id == m.components[j].id {
            lemma_id_seq_injective(i as nat, j as nat);
        }
    }
}

pub proof fn lemma_resolve_preserves(m: ModelV, cand: AttrsView, extra: AttrsView, is_source: bool)
    requires
        ids_canonical(m),
        model_wf(m),
        attrs_wf(cand),
        attrs_wf(extra),
    ensures
        ids_canonical(spec_resolve(m, cand, extra, is_source).0),
        model_wf(spec_resolve(m, cand, extra, is_source).0),
        has_component_id(
            spec_resolve(m, cand, extra, is_source).0,
            spec_resolve(m, cand, extra, is_source).1,
        ),
        spec_resolve(m, cand, extra, is_source).0.connectors == m.connectors,
        m.components.is_prefix_of(spec_resolve(m, cand, extra, is_source).0.components),
{
    lemma_match_index(m.components, cand);
    let i = match_index(m.components, cand);
    if i >= 0 {
        assert(m.components.is_prefix_of(m.components));
    } else {
        let m2 = spec_resolve(m, cand, extra, is_source).0;
        crate::attrs::lemma_merge_wf(cand, extra);
        assert(m2.components.len() == m.components.len() + 1);
        lemma_canonical_ids_distinct(m2);
        assert forall|k: int| 0 <= k < m2.connectors.len() implies has_component_id(
            m2,
            #[trigger] m2.connectors[k].source_component_id,
        ) && has_component_id(m2, m2.connectors[k].target_component_id) by {
            let si = choose|x: int|
                0 <= x < m.components.len() && #[trigger] m.components[x].id
                    == m.connectors[k].source_component_id;
            assert(m2.components[si].id == m.connectors[k].source_component_id);
            let ti = choose|x: int|
                0 <= x < m.components.len() && #[trigger] m.components[x].id
                    == m.connectors[k].target_component_id;
            assert(m2.components[ti].id == m.connectors[k].target_component_id);
        }
        assert(m2.components[m.components.len() as int].id == spec_resolve(m, cand, extra, is_source).1);
    }
}

pub proof fn lemma_step_preserves(m: ModelV, ci: CiV)
    requires
        ids_canonical(m),
        model_wf(m),
        ci_wf(ci),
    ensures
        ids_canonical(spec_step(m, ci)),
        model_wf(spec_step(m, ci)),
{
    let r1 = spec_resolve(m, ci.source_component_values, ci.additional_source_component_values, true);
    let r2 = spec_resolve(
        r1.0,
        ci.target_component_values,
        ci.additional_source_component_values,
        false,
    );
    lemma_resolve_preserves(
        m,
        ci.source_component_values,
        ci.additional_source_component_values,
        true,
    );
    lemma_resolve_preserves(
        r1.0,
        ci.target_component_values,
        ci.additional_source_component_values,
        false,
    );
    let out = spec_step(m, ci);
    assert(out.components == r2.0.components);
    // The source id resolved in the first step still names a component after
    // the second step, because components are only appended.
    assert forall|k: int| 0 <= k < out.connectors.len() implies has_component_id(
        out,
        #[trigger] out.connectors[k].source_component_id,
    ) && has_component_id(out, out.connectors[k].target_component_id) by {
        if k < r2.0.connectors.len() {
            assert(out.connectors[k] == r2.0.connectors[k]);
            let si = choose|x: int|
                0 <= x < r2.0.components.len() && #[trigger] r2.0.components[x].id
                    == r2.0.connectors[k].source_component_id;
            assert(out.components[si].id == out.connectors[k].source_component_id);
            let ti = choose|x: int|
                0 <= x < r2.0.components.len() && #[trigger] r2.0.components[x].id
                    == r2.0.connectors[k].target_component_id;
            assert(out.components[ti].id == out.connectors[k].target_component_id);
        } else {
            assert(out.connectors[k].source_component_id == r1.1);
            assert(out.connectors[k].target_component_id == r2.1);
            let si = choose|x: int|
                0 <= x < r1.0.components.len() && #[trigger] r1.0.components[x].id == r1.1;
            assert(r1.0.components.is_prefix_of(r2.0.components));
            assert(out.components[si].id == r1.1);
        }
    }
}

/// The model the builder returns satisfies the model invariants, provided
/// every input attribute map is well-formed.
pub proof fn lemma_build_wf(cis: Seq<CiV>)
    requires
        forall|i: int| 0 <= i < cis.len() ==> ci_wf(#[trigger] cis[i]),
    ensures
        ids_canonical(spec_build(cis)),
        model_wf(spec_build(cis)),
    decreases cis.len(),
{
    if cis.len() > 0 {
        lemma_build_wf(cis.drop_last());
        lemma_step_preserves(spec_build(cis.drop_last()), cis.last());
    }
}

impl Model {
    pub fn new() -> (m: Model)
        ensures
            m@ == empty_model(),
    {
        let m = Model { components: Vec::new(), connectors: Vec::new() };
        proof {
            assert(m@.components =~= empty_model().components);
            assert(m@.connectors =~= empty_model().connectors);
        }
        m
    }
}

/// Generates the canonical id for the component created at index `n`.
fn fresh_component_id(n: usize) -> (s: String)
    ensures
        s@ == id_seq(n as nat),
{
    let mut s = String::new();
    push_char(&mut s, 'c');
    let digits = u64_to_dec(n as u64);
    s.append(digits.as_str());
    proof {
        assert(s@ =~= id_seq(n as nat));
    }
    s
}

/// Scans the components in insertion order and returns the id of the first
/// one that `component_values` partially matches.
pub fn find_component_in_model(model: &Model, component_values: &AttrMap) -> (r: Option<String>)
    ensures
        match_index(model@.components, component_values@) >= 0 ==> (r matches Some(id) && id@
            == model@.components[match_index(model@.components, component_values@)].id),
        match_index(model@.components, component_values@) < 0 ==> r is None,
{
    let n = model.components.len();
    let mut i: usize = 0;
    while i < n
        invariant
            i <= n,
            n == model@.components.len(),
            forall|j: int|
                0 <= j < i ==> !attrs_match(
                    component_values@,
                    #[trigger] model@.components[j].component_values,
                ),
        decreases n - i,
    {
        proof {
            assert(model@.components[i as int] == model.components@[i as int]@);
        }
        if component_values.matches(&model.components[i].component_values) {
            proof {
                lemma_match_index_first(model@.components, component_values@, i as int);
            }
            return Some(model.components[i].id.clone());
        }
        i = i + 1;
    }
    proof {
        lemma_match_index(model@.components, component_values@);
    }
    None
}

/// Resolves one side of a connector instance: reuses the first matching
/// component's id, or creates a new component.  When a new component is
/// created for the source side, `additional_source_component_values` is
/// merged into its stored map (the additional entries win on key collisions).
pub fn find_or_create_component_if_not_exist(model: &mut Model, ci: &Ci, is_source: bool) -> (id:
    String)
    ensures
        ({
            let cand = if is_source {
                ci@.source_component_values
            } else {
                ci@.target_component_values
            };
            let r = spec_resolve(old(model)@, cand, ci@.additional_source_component_values, is_source);
            final(model)@ == r.0 && id@ == r.1
        }),
{
    let component_values = if is_source {
        &ci.source_component_values
    } else {
        &ci.target_component_values
    };
    proof {
        lemma_match_index(model@.components, component_values@);
    }
    match find_component_in_model(model, component_values) {
        Some(found) => found,
        None => {
            let new_id = fresh_component_id(model.components.len());
            let mut new_component_values = component_values.clone_map();
            if is_source {
                new_component_values.merge_from(&ci.additional_source_component_values);
            }
            let ghost pre = model@;
            model.components.push(
                Component { id: new_id.clone(), component_values: new_component_values },
            );
            proof {
                assert(model@.components =~= pre.components.push(
                    ComponentV {
                        id: id_seq(pre.components.len()),
                        component_values: if is_source {
                            attrs_merge(
                                (if is_source {
                                    ci@.source_component_values
                                } else {
                                    ci@.target_component_values
                                }),
                                ci@.additional_source_component_values,
                            )
                        } else {
                            ci@.target_component_values
                        },
                    },
                ));
                assert(model@.connectors =~= pre.connectors);
            }
            new_id
        },
    }
}

/// Folds the connector instances, in order, into a model: resolves the source
/// and then the target side of each instance and appends one connector per
/// instance.  The result is exactly `spec_build` of the input, and satisfies
/// the model invariants whenever every input attribute map is well-formed.
pub fn build_model(cis: Vec<Ci>) -> (m: Model)
    ensures
        m@ == spec_build(cis_view(cis@)),
        (forall|i: int| 0 <= i < cis@.len() ==> ci_wf(#[trigger] cis_view(cis@)[i]))
            ==> model_wf(m@),
{
    let mut model = Model::new();
    let n = cis.len();
    let mut i: usize = 0;
    proof {
        assert(cis_view(cis@).take(0) =~= Seq::<CiV>::empty());
    }
    while i < n
        invariant
            i <= n,
            n == cis@.len(),
            model@ == spec_build(cis_view(cis@).take(i as int)),
        decreases n - i,
    {
        let ghost pre = model@;
        let source_component_id = find_or_create_component_if_not_exist(&mut model, &cis[i], true);
        let target_component_id = find_or_create_component_if_not_exist(&mut model, &cis[i], false);
        let connector = Connector {
            connector_type: cis[i].connector_type.clone(),
            source_component_id,
            target_component_id,
        };
        let ghost mid = model@;
        model.connectors.push(connector);
        proof {
            let ghost views = cis_view(cis@);
            assert(views[i as int] == cis@[i as int]@);
            assert(views.take(i as int + 1).drop_last() =~= views.take(i as int));
            assert(views.take(i as int + 1).last() == views[i as int]);
            assert(model@.components =~= mid.components);
            assert(model@.connectors =~= mid.connectors.push(
                ConnectorV {
                    connector_type: views[i as int].connector_type,
                    source_component_id: spec_resolve(
                        pre,
                        views[i as int].source_component_values,
                        views[i as int].additional_source_component_values,
                        true,
                    ).1,
                    target_component_id: spec_resolve(
                        spec_resolve(
                            pre,
                            views[i as int].source_component_values,
                            views[i as int].additional_source_component_values,
                            true,
                        ).0,
                        views[i as int].target_component_values,
                        views[i as int].additional_source_component_values,
                        false,
                    ).1,
                },
            ));
            assert(model@ == spec_step(pre, views[i as int]));
        }
        i = i + 1;
    }
    proof {
        assert(cis_view(cis@).take(n as int) =~= cis_view(cis@));
        if forall|j: int| 0 <= j < cis@.len() ==> ci_wf(#[trigger] cis_view(cis@)[j]) {
            lemma_build_wf(cis_view(cis@));
        }
    }
    model
}

/// Running the builder on equal ordered inputs yields equal models: the
/// builder is a pure function of its input, so two independent invocations
/// agree on component count, attribute maps, ids, and connector triples.
pub proof fn lemma_build_deterministic(a: Seq<CiV>, b: Seq<CiV>)
    requires
        a == b,
    ensures
        spec_build(a) == spec_build(b),
{
}

} // verus!
