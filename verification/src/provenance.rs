//! Provenance of extracted exports: every name in the extractor's named
//! output (and any default) is backed by a declaration of some module in
//! the module map — a local declaration of the entry itself, or one of a
//! transitively reached re-export target.

use vstd::prelude::*;
use crate::ecma::{DeclView, EntityView, ItemView, spec_entity_of_decl, spec_entity_of_default};
use crate::walker::{
    NamedState, spec_classify, spec_blocks_fold, spec_default_resolution, spec_export_decls,
    spec_export_entity, spec_extract, spec_get_exports, spec_group_spec_step, spec_group_specs,
    spec_named_resolution, spec_ns_map, spec_resolve_alls, spec_resolve_groups, spec_specs_fold,
    spec_specs_step, wf_stack, walk_budget, lemma_budget_nonneg, lemma_push_wf,
};

verus! {

/// The entities a single top-level item can put behind an export.
pub open spec fn item_entities(it: ItemView) -> Set<EntityView> {
    match it {
        ItemView::Decl(d) => match spec_entity_of_decl(d) {
            Option::Some(e) => Set::empty().insert(e),
            Option::None => Set::empty(),
        },
        ItemView::ExportDecl(d) => match spec_export_entity(d) {
            Result::Ok(e) => Set::empty().insert(e),
            Result::Err(_) => Set::empty(),
        },
        ItemView::ExportDefaultDecl(dd) => Set::empty().insert(spec_entity_of_default(dd)),
        _ => Set::empty(),
    }
}

/// The entities a module's own items can put behind an export.
pub open spec fn module_entities(items: Seq<ItemView>) -> Set<EntityView>
    decreases items.len(),
{
    if items.len() == 0 {
        Set::empty()
    } else {
        module_entities(items.drop_last()).union(item_entities(items.last()))
    }
}

/// The entity is declared by some module of the map.
pub open spec fn entity_good(m: Map<Seq<char>, Seq<ItemView>>, e: EntityView) -> bool {
    exists|p: Seq<char>|
        m.dom().contains(p) && module_entities(#[trigger] m.index(p)).contains(e)
}

/// Every value of the map is declared by some module of the map.
pub open spec fn map_good(m: Map<Seq<char>, Seq<ItemView>>, named: Map<Seq<char>, EntityView>) -> bool {
    forall|k: Seq<char>| #[trigger]
        named.contains_key(k) ==> entity_good(m, named.index(k))
}

/// Every value of the map is an entity of this module's own items.
pub open spec fn map_local(items: Seq<ItemView>, named: Map<Seq<char>, EntityView>) -> bool {
    forall|k: Seq<char>| #[trigger]
        named.contains_key(k) ==> module_entities(items).contains(named.index(k))
}

proof fn lemma_classify_local(items: Seq<ItemView>)
    ensures
        map_local(items, spec_classify(items).decls),
        forall|i: int|
            0 <= i < spec_classify(items).export_decls.len() ==> (match spec_export_entity(
                #[trigger] spec_classify(items).export_decls[i],
            ) {
                Result::Ok(e) => module_entities(items).contains(e),
                Result::Err(_) => true,
            }),
        spec_classify(items).default_decl matches Option::Some(dd) ==> module_entities(
            items,
        ).contains(spec_entity_of_default(dd)),
    decreases items.len(),
{
    if items.len() > 0 {
        lemma_classify_local(items.drop_last());
        let prev = spec_classify(items.drop_last());
        let cur = spec_classify(items);
        assert(module_entities(items) == module_entities(items.drop_last()).union(
            item_entities(items.last()),
        ));
        assert forall|k: Seq<char>| #[trigger]
            cur.decls.contains_key(k) implies module_entities(items).contains(
            cur.decls.index(k),
        ) by {
            match items.last() {
                ItemView::Decl(d) => {
                    match spec_entity_of_decl(d) {
                        Option::Some(e) => {
                            if k == e.spec_name() {
                                assert(item_entities(items.last()).contains(e));
                            } else {
                                assert(prev.decls.contains_key(k));
                            }
                        },
                        Option::None => {
                            assert(prev.decls.contains_key(k));
                        },
                    }
                },
                _ => {
                    assert(cur.decls == prev.decls);
                    assert(prev.decls.contains_key(k));
                },
            }
        }
        assert forall|i: int|
            0 <= i < cur.export_decls.len() implies (match spec_export_entity(
            #[trigger] cur.export_decls[i],
        ) {
            Result::Ok(e) => module_entities(items).contains(e),
            Result::Err(_) => true,
        }) by {
            match items.last() {
                ItemView::ExportDecl(d) => {
                    if i < cur.export_decls.len() - 1 {
                        assert(cur.export_decls[i] == prev.export_decls[i]);
                    } else {
                        assert(cur.export_decls[i] == d);
                        match spec_export_entity(d) {
                            Result::Ok(e) => {
                                assert(item_entities(items.last()).contains(e));
                            },
                            Result::Err(_) => {},
                        }
                    }
                },
                _ => {
                    assert(cur.export_decls == prev.export_decls);
                },
            }
        }
    }
}

proof fn lemma_export_decls_local(items: Seq<ItemView>, eds: Seq<DeclView>)
    requires
        forall|i: int|
            0 <= i < eds.len() ==> (match spec_export_entity(#[trigger] eds[i]) {
                Result::Ok(e) => module_entities(items).contains(e),
                Result::Err(_) => true,
            }),
        spec_export_decls(eds) is Ok,
    ensures
        map_local(items, spec_export_decls(eds)->Ok_0),
    decreases eds.len(),
{
    if eds.len() > 0 {
        assert forall|i: int|
            0 <= i < eds.drop_last().len() implies (match spec_export_entity(
            #[trigger] eds.drop_last()[i],
        ) {
            Result::Ok(e) => module_entities(items).contains(e),
            Result::Err(_) => true,
        }) by {
            assert(eds.drop_last()[i] == eds[i]);
        }
        lemma_export_decls_local(items, eds.drop_last());
        assert(spec_export_entity(eds.last()) is Ok);
    }
}

proof fn lemma_specs_fold_local(
    items: Seq<ItemView>,
    st: NamedState,
    src: Option<Seq<char>>,
    specs: Seq<crate::ecma::SpecifierView>,
)
    requires
        map_local(items, st.internal),
        map_local(items, st.decls),
        spec_specs_fold(st, src, specs) is Ok,
    ensures
        map_local(items, spec_specs_fold(st, src, specs)->Ok_0.internal),
        map_local(items, spec_specs_fold(st, src, specs)->Ok_0.decls),
    decreases specs.len(),
{
    if specs.len() > 0 {
        lemma_specs_fold_local(items, st, src, specs.drop_last());
        let mid = spec_specs_fold(st, src, specs.drop_last())->Ok_0;
        let stepped = spec_specs_step(mid, src, specs.last());
        assert(stepped is Ok);
        let out = stepped->Ok_0;
        assert forall|k: Seq<char>| #[trigger]
            out.internal.contains_key(k) implies module_entities(items).contains(
            out.internal.index(k),
        ) by {
            if !mid.internal.contains_key(k) || out.internal.index(k) != mid.internal.index(k) {
                match specs.last() {
                    crate::ecma::SpecifierView::Named { orig, exported } => {
                        assert(mid.decls.contains_key(orig));
                    },
                    _ => {},
                }
            }
        }
        assert forall|k: Seq<char>| #[trigger]
            out.decls.contains_key(k) implies module_entities(items).contains(
            out.decls.index(k),
        ) by {
            assert(mid.decls.contains_key(k));
        }
    }
}

proof fn lemma_blocks_fold_local(
    items: Seq<ItemView>,
    st: NamedState,
    blocks: Seq<(Option<Seq<char>>, Seq<crate::ecma::SpecifierView>)>,
)
    requires
        map_local(items, st.internal),
        map_local(items, st.decls),
        spec_blocks_fold(st, blocks) is Ok,
    ensures
        map_local(items, spec_blocks_fold(st, blocks)->Ok_0.internal),
        map_local(items, spec_blocks_fold(st, blocks)->Ok_0.decls),
    decreases blocks.len(),
{
    if blocks.len() > 0 {
        lemma_blocks_fold_local(items, st, blocks.drop_last());
        let mid = spec_blocks_fold(st, blocks.drop_last())->Ok_0;
        lemma_specs_fold_local(items, mid, blocks.last().0, blocks.last().1);
    }
}

/// Named resolution only moves a module's own entities into the named
/// output and leaves only its own entities unclaimed.
proof fn lemma_named_resolution_local(items: Seq<ItemView>)
    requires
        spec_named_resolution(
            spec_classify(items).export_decls,
            spec_classify(items).named,
            spec_classify(items).decls,
        ) is Ok,
    ensures
        map_local(
            items,
            spec_named_resolution(
                spec_classify(items).export_decls,
                spec_classify(items).named,
                spec_classify(items).decls,
            )->Ok_0.internal,
        ),
        map_local(
            items,
            spec_named_resolution(
                spec_classify(items).export_decls,
                spec_classify(items).named,
                spec_classify(items).decls,
            )->Ok_0.decls,
        ),
{
    let iv = spec_classify(items);
    lemma_classify_local(items);
    assert(spec_export_decls(iv.export_decls) is Ok);
    lemma_export_decls_local(items, iv.export_decls);
    let st0 = NamedState {
        internal: spec_export_decls(iv.export_decls)->Ok_0,
        groups: Seq::empty(),
        decls: iv.decls,
    };
    lemma_blocks_fold_local(items, st0, iv.named);
}

proof fn lemma_group_specs_good(
    m: Map<Seq<char>, Seq<ItemView>>,
    out: Map<Seq<char>, EntityView>,
    facade: Map<Seq<char>, EntityView>,
    fdefault: Option<EntityView>,
    specs: Seq<crate::ecma::SpecifierView>,
)
    requires
        map_good(m, out),
        map_good(m, facade),
        fdefault matches Option::Some(e) ==> entity_good(m, e),
    ensures
        map_good(m, spec_group_specs(out, facade, fdefault, specs).0),
        map_good(m, spec_group_specs(out, facade, fdefault, specs).1),
    decreases specs.len(),
{
    if specs.len() > 0 {
        lemma_group_specs_good(m, out, facade, fdefault, specs.drop_last());
        let mid = spec_group_specs(out, facade, fdefault, specs.drop_last());
        let stepped = spec_group_spec_step(mid.0, mid.1, fdefault, specs.last());
        assert forall|k: Seq<char>| #[trigger]
            stepped.0.contains_key(k) implies entity_good(m, stepped.0.index(k)) by {
            if !mid.0.contains_key(k) || stepped.0.index(k) != mid.0.index(k) {
                match specs.last() {
                    crate::ecma::SpecifierView::Named { orig, exported } => {},
                    crate::ecma::SpecifierView::Namespace(ns) => {
                        let k0 = k.skip(ns.len() as int + 1);
                        assert(spec_ns_map(ns, mid.1).dom().contains(k));
                        let kk = choose|kk: Seq<char>| #[trigger]
                            mid.1.dom().contains(kk) && k == crate::walker::spec_ns_key(ns, kk);
                        crate::walker::lemma_ns_key_injective(ns, kk);
                        assert(stepped.0.index(k) == mid.1.index(kk));
                    },
                    crate::ecma::SpecifierView::Default => {},
                }
            }
        }
        assert forall|k: Seq<char>| #[trigger]
            stepped.1.contains_key(k) implies entity_good(m, stepped.1.index(k)) by {
            assert(mid.1.contains_key(k));
        }
    }
}

/// The provenance induction over the extractor's recursion.
proof fn lemma_extract_good(m: Map<Seq<char>, Seq<ItemView>>, path: Seq<char>, stack: Seq<Seq<char>>)
    requires
        wf_stack(m, stack),
        stack.len() > 0,
        stack.last() == path,
        m.dom().contains(path),
    ensures
        spec_extract(m, path, stack) matches Result::Ok(ex) ==> map_good(m, ex.named) && (
        ex.default matches Option::Some(e) ==> entity_good(m, e)),
    decreases walk_budget(m, stack), 2int, 0int,
{
    lemma_budget_nonneg(m, stack);
    let items = spec_classify(m.index(path));
    let named_res = spec_named_resolution(items.export_decls, items.named, items.decls);
    if spec_extract(m, path, stack) is Ok {
        assert(named_res is Ok);
        lemma_named_resolution_local(m.index(path));
        let st = named_res->Ok_0;
        assert forall|k: Seq<char>| #[trigger]
            st.internal.contains_key(k) implies entity_good(m, st.internal.index(k)) by {
            assert(module_entities(m.index(path)).contains(st.internal.index(k)));
        }
        assert forall|k: Seq<char>| #[trigger]
            st.decls.contains_key(k) implies entity_good(m, st.decls.index(k)) by {
            assert(module_entities(m.index(path)).contains(st.decls.index(k)));
        }
        let dir = crate::paths::spec_parent(path);
        let default = spec_default_resolution(items.default_decl, items.default_expr, st.decls);
        if default is Some {
            match items.default_decl {
                Option::Some(dd) => {
                    lemma_classify_local(m.index(path));
                    assert(module_entities(m.index(path)).contains(
                        spec_entity_of_default(dd),
                    ));
                },
                Option::None => {
                    match items.default_expr {
                        Option::Some(Option::Some(name)) => {
                            assert(st.decls.contains_key(name));
                        },
                        _ => {},
                    }
                },
            }
            assert(entity_good(m, default->Some_0));
        }
        lemma_resolve_alls_good(m, dir, items.alls, st.internal, stack);
        let named1 = spec_resolve_alls(m, dir, items.alls, st.internal, stack);
        assert(named1 is Ok);
        lemma_resolve_groups_good(m, dir, st.groups, named1->Ok_0, stack);
    }
}

proof fn lemma_resolve_alls_good(
    m: Map<Seq<char>, Seq<ItemView>>,
    dir: Seq<char>,
    alls: Seq<Seq<char>>,
    acc: Map<Seq<char>, EntityView>,
    stack: Seq<Seq<char>>,
)
    requires
        wf_stack(m, stack),
        map_good(m, acc),
    ensures
        spec_resolve_alls(m, dir, alls, acc, stack) matches Result::Ok(named) ==> map_good(
            m,
            named,
        ),
    decreases walk_budget(m, stack), 1int, alls.len(),
{
    lemma_budget_nonneg(m, stack);
    if alls.len() > 0 && spec_resolve_alls(m, dir, alls, acc, stack) is Ok {
        let target = crate::paths::spec_path_join(dir, alls.first());
        assert(!stack.contains(target) && m.dom().contains(target));
        lemma_push_wf(m, stack, target);
        lemma_budget_nonneg(m, stack.push(target));
        lemma_extract_good(m, target, stack.push(target));
        let ex = spec_extract(m, target, stack.push(target))->Ok_0;
        assert forall|k: Seq<char>| #[trigger]
            acc.union_prefer_right(ex.named).contains_key(k) implies entity_good(
            m,
            acc.union_prefer_right(ex.named).index(k),
        ) by {
            if ex.named.contains_key(k) {
                assert(entity_good(m, ex.named.index(k)));
            } else {
                assert(acc.contains_key(k));
            }
        }
        lemma_resolve_alls_good(m, dir, alls.drop_first(), acc.union_prefer_right(ex.named), stack);
    }
}

proof fn lemma_resolve_groups_good(
    m: Map<Seq<char>, Seq<ItemView>>,
    dir: Seq<char>,
    groups: Seq<(Seq<char>, Seq<crate::ecma::SpecifierView>)>,
    acc: Map<Seq<char>, EntityView>,
    stack: Seq<Seq<char>>,
)
    requires
        wf_stack(m, stack),
        map_good(m, acc),
    ensures
        spec_resolve_groups(m, dir, groups, acc, stack) matches Result::Ok(named) ==> map_good(
            m,
            named,
        ),
    decreases walk_budget(m, stack), 1int, groups.len(),
{
    lemma_budget_nonneg(m, stack);
    if groups.len() > 0 && spec_resolve_groups(m, dir, groups, acc, stack) is Ok {
        let target = crate::paths::spec_path_join(dir, groups.first().0);
        assert(!stack.contains(target) && m.dom().contains(target));
        lemma_push_wf(m, stack, target);
        lemma_budget_nonneg(m, stack.push(target));
        lemma_extract_good(m, target, stack.push(target));
        let ex = spec_extract(m, target, stack.push(target))->Ok_0;
        lemma_group_specs_good(m, acc, ex.named, ex.default, groups.first().1);
        let applied = spec_group_specs(acc, ex.named, ex.default, groups.first().1);
        lemma_resolve_groups_good(m, dir, groups.drop_first(), applied.0, stack);
    }
}

/// Every name the extractor reports for an entry is backed by a
/// declaration of some module in the map — a local declaration of the
/// entry, or one of a transitively reached re-export target; so is a
/// reported default export.
pub proof fn lemma_exports_have_provenance(m: Map<Seq<char>, Seq<ItemView>>, path: Seq<char>)
    requires
        m.dom().finite(),
    ensures
        spec_get_exports(m, path) matches Result::Ok(ex) ==> map_good(m, ex.named) && (
        ex.default matches Option::Some(e) ==> entity_good(m, e)),
{
    if m.dom().contains(path) {
        assert(seq![path].no_duplicates());
        assert(wf_stack(m, seq![path]));
        lemma_extract_good(m, path, seq![path]);
    }
}

} // verus!
