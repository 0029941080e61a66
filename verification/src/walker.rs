//! The export extractor: walks a module's top-level items, collects local
//! declarations and export statements, resolves re-exports recursively
//! through the module map, and produces the module's canonical export
//! surface `(default, named)`.

use vstd::prelude::*;
use crate::ecma::{
    DeclKind, DeclView, DefaultDeclKind, DefaultDeclView, EntityDeclaration, EntityView,
    ModuleAst, ModuleItem, ItemView, Specifier, SpecifierView, spec_entity_of_decl,
    spec_entity_of_default, empty_string,
};
use crate::strmap::StrMap;
use crate::strutil::str_eq;
use crate::paths::{path_join, spec_path_join};

verus! {

/// The modules reachable during extraction, keyed by normalized
/// package-root-relative path.
pub type ModuleMap = StrMap<ModuleAst>;

/// A fatal fault of the export graph.
#[derive(Debug)]
pub enum WalkError {
    /// A re-export chain returned to a module already being resolved.
    CyclicReExport(String),
    /// A `from` clause referenced a path outside the module map.
    ImportNotFound(String),
    /// An exported declaration form the extractor does not support.
    UnsupportedDeclaration,
    /// A bare default specifier in a named export without a `from` clause.
    NamedDefaultSpecifier,
}

pub enum WalkErrorView {
    CyclicReExport(Seq<char>),
    ImportNotFound(Seq<char>),
    UnsupportedDeclaration,
    NamedDefaultSpecifier,
}

impl View for WalkError {
    type V = WalkErrorView;

    open spec fn view(&self) -> WalkErrorView {
        match self {
            WalkError::CyclicReExport(p) => WalkErrorView::CyclicReExport(p@),
            WalkError::ImportNotFound(p) => WalkErrorView::ImportNotFound(p@),
            WalkError::UnsupportedDeclaration => WalkErrorView::UnsupportedDeclaration,
            WalkError::NamedDefaultSpecifier => WalkErrorView::NamedDefaultSpecifier,
        }
    }
}

/// A module's resolved export surface.
pub struct ModuleExports {
    pub default: Option<EntityDeclaration>,
    pub named: StrMap<EntityDeclaration>,
}

/// Spec-level export surface.
#[verifier::ext_equal]
pub struct ExportsView {
    pub default: Option<EntityView>,
    pub named: Map<Seq<char>, EntityView>,
}

impl View for ModuleExports {
    type V = ExportsView;

    open spec fn view(&self) -> ExportsView {
        ExportsView {
            default: match self.default {
                Option::Some(ref e) => Option::Some(e@),
                Option::None => Option::None,
            },
            named: self.named@,
        }
    }
}

/// A named export statement: its optional `from` source and its specifiers.
pub struct NamedBlock {
    pub src: Option<String>,
    pub specifiers: Vec<Specifier>,
}

impl View for NamedBlock {
    type V = (Option<Seq<char>>, Seq<SpecifierView>);

    open spec fn view(&self) -> (Option<Seq<char>>, Seq<SpecifierView>) {
        (
            match self.src {
                Option::Some(ref s) => Option::Some(s@),
                Option::None => Option::None,
            },
            self.specifiers@.map_values(|sp: Specifier| sp@),
        )
    }
}

/// The six classification buckets of a module's top-level items.
pub struct ModuleItems {
    /// Local declarations keyed by name; the last declaration of a name
    /// wins.
    pub decls: StrMap<EntityDeclaration>,
    /// Declarations exported directly (`export var|class|function`).
    pub export_decls: Vec<DeclKind>,
    /// Sources of `export * from "src"` statements, in order.
    pub alls: Vec<String>,
    /// Named export statements, in order.
    pub named: Vec<NamedBlock>,
    /// The last `export default <declaration>`, if any.
    pub default_decl: Option<DefaultDeclKind>,
    /// The last `export default <expression>`, if any.
    pub default_expr: Option<Option<String>>,
}

/// Spec-level classification buckets.
#[verifier::ext_equal]
pub struct ItemsView {
    pub decls: Map<Seq<char>, EntityView>,
    pub export_decls: Seq<DeclView>,
    pub alls: Seq<Seq<char>>,
    pub named: Seq<(Option<Seq<char>>, Seq<SpecifierView>)>,
    pub default_decl: Option<DefaultDeclView>,
    pub default_expr: Option<Option<Seq<char>>>,
}

pub open spec fn empty_items() -> ItemsView {
    ItemsView {
        decls: Map::empty(),
        export_decls: Seq::empty(),
        alls: Seq::empty(),
        named: Seq::empty(),
        default_decl: Option::None,
        default_expr: Option::None,
    }
}

/// How one item extends the classification buckets.
pub open spec fn classify_step(acc: ItemsView, it: ItemView) -> ItemsView {
    match it {
        ItemView::Decl(d) => match spec_entity_of_decl(d) {
            Option::Some(e) => ItemsView { decls: acc.decls.insert(e.spec_name(), e), ..acc },
            Option::None => acc,
        },
        ItemView::ExportDecl(d) => ItemsView { export_decls: acc.export_decls.push(d), ..acc },
        ItemView::ExportDefaultDecl(d) => ItemsView { default_decl: Option::Some(d), ..acc },
        ItemView::ExportDefaultExpr(e) => ItemsView { default_expr: Option::Some(e), ..acc },
        ItemView::ExportAll(src) => ItemsView { alls: acc.alls.push(src), ..acc },
        ItemView::ExportNamed { src, specifiers } => ItemsView {
            named: acc.named.push((src, specifiers)),
            ..acc
        },
        ItemView::Other => acc,
    }
}

/// The classification of a whole item list, folded left to right.
pub open spec fn spec_classify(items: Seq<ItemView>) -> ItemsView
    decreases items.len(),
{
    if items.len() == 0 {
        empty_items()
    } else {
        classify_step(spec_classify(items.drop_last()), items.last())
    }
}

impl DeclKind {
    /// A structural copy with the same view.
    pub fn duplicate(&self) -> (r: DeclKind)
        ensures
            r@ == self@,
    {
        match self {
            DeclKind::Var(names) => {
                let mut copy: Vec<String> = Vec::new();
                let mut i: usize = 0;
                while i < names.len()
                    invariant
                        i <= names@.len(),
                        copy@.map_values(|s: String| s@) =~= names@.map_values(|s: String| s@)
                            .take(i as int),
                    decreases names@.len() - i,
                {
                    let ghost prev = copy@;
                    copy.push(String::from_str(names[i].as_str()));
                    proof {
                        assert(copy@.map_values(|s: String| s@) =~= prev.map_values(
                            |s: String| s@,
                        ).push(names@[i as int]@));
                        assert(names@.map_values(|s: String| s@).take(i + 1) =~= names@.map_values(
                            |s: String| s@,
                        ).take(i as int).push(names@[i as int]@));
                    }
                    i = i + 1;
                }
                proof {
                    assert(names@.map_values(|s: String| s@).take(names@.len() as int)
                        =~= names@.map_values(|s: String| s@));
                }
                DeclKind::Var(copy)
            },
            DeclKind::Class(n) => DeclKind::Class(String::from_str(n.as_str())),
            DeclKind::Func(n) => DeclKind::Func(String::from_str(n.as_str())),
            DeclKind::TsOther => DeclKind::TsOther,
            DeclKind::Unsupported => DeclKind::Unsupported,
        }
    }
}

impl DefaultDeclKind {
    /// A structural copy with the same view.
    pub fn duplicate(&self) -> (r: DefaultDeclKind)
        ensures
            r@ == self@,
    {
        match self {
            DefaultDeclKind::Func(n) => DefaultDeclKind::Func(
                match n {
                    Option::Some(s) => Option::Some(String::from_str(s.as_str())),
                    Option::None => Option::None,
                },
            ),
            DefaultDeclKind::Class(n) => DefaultDeclKind::Class(
                match n {
                    Option::Some(s) => Option::Some(String::from_str(s.as_str())),
                    Option::None => Option::None,
                },
            ),
            DefaultDeclKind::TsInterface => DefaultDeclKind::TsInterface,
        }
    }
}

impl Specifier {
    /// A structural copy with the same view.
    pub fn duplicate(&self) -> (r: Specifier)
        ensures
            r@ == self@,
    {
        match self {
            Specifier::Named { orig, exported } => Specifier::Named {
                orig: String::from_str(orig.as_str()),
                exported: match exported {
                    Option::Some(s) => Option::Some(String::from_str(s.as_str())),
                    Option::None => Option::None,
                },
            },
            Specifier::Namespace(n) => Specifier::Namespace(String::from_str(n.as_str())),
            Specifier::Default => Specifier::Default,
        }
    }
}

/// View of an optional default declaration bucket.
pub open spec fn view_opt_dd(d: Option<DefaultDeclKind>) -> Option<DefaultDeclView> {
    match d {
        Option::Some(x) => Option::Some(x@),
        Option::None => Option::None,
    }
}

/// View of an optional default expression bucket.
pub open spec fn view_opt_expr(e: Option<Option<String>>) -> Option<Option<Seq<char>>> {
    match e {
        Option::Some(Option::Some(x)) => Option::Some(Option::Some(x@)),
        Option::Some(Option::None) => Option::Some(Option::None),
        Option::None => Option::None,
    }
}

/// Walk the module's items once and sort them into the six buckets the
/// export resolution passes work from.
pub fn get_items_in_module(module: &ModuleAst) -> (r: ModuleItems)
    ensures
        r.decls@ == spec_classify(module@).decls,
        r.export_decls@.map_values(|d: DeclKind| d@) == spec_classify(module@).export_decls,
        r.alls@.map_values(|s: String| s@) == spec_classify(module@).alls,
        r.named@.map_values(|b: NamedBlock| b@) == spec_classify(module@).named,
        view_opt_dd(r.default_decl) == spec_classify(module@).default_decl,
        view_opt_expr(r.default_expr) == spec_classify(module@).default_expr,
{
    let mut out = ModuleItems {
        decls: StrMap::new(),
        export_decls: Vec::new(),
        alls: Vec::new(),
        named: Vec::new(),
        default_decl: None,
        default_expr: None,
    };
    let mut i: usize = 0;
    proof {
        assert(module@.take(0) =~= Seq::<ItemView>::empty());
        assert(out.export_decls@.map_values(|d: DeclKind| d@) =~= Seq::<DeclView>::empty());
        assert(out.alls@.map_values(|s: String| s@) =~= Seq::<Seq<char>>::empty());
        assert(out.named@.map_values(|b: NamedBlock| b@) =~= Seq::<
            (Option<Seq<char>>, Seq<SpecifierView>),
        >::empty());
    }
    while i < module.body.len()
        invariant
            i <= module.body@.len(),
            module@.len() == module.body@.len(),
            out.decls@ == spec_classify(module@.take(i as int)).decls,
            out.export_decls@.map_values(|d: DeclKind| d@) =~= spec_classify(
                module@.take(i as int),
            ).export_decls,
            out.alls@.map_values(|s: String| s@) =~= spec_classify(module@.take(i as int)).alls,
            out.named@.map_values(|b: NamedBlock| b@) =~= spec_classify(
                module@.take(i as int),
            ).named,
            view_opt_dd(out.default_decl) == spec_classify(module@.take(i as int)).default_decl,
            view_opt_expr(out.default_expr) == spec_classify(module@.take(i as int)).default_expr,
        decreases module.body@.len() - i,
    {
        proof {
            assert(module@.take(i + 1).drop_last() =~= module@.take(i as int));
            assert(module@.take(i + 1).last() == module@[i as int]);
            assert(module@[i as int] == module.body@[i as int]@);
        }
        let ghost acc = spec_classify(module@.take(i as int));
        let item = &module.body[i];
        match item {
            ModuleItem::Decl(d) => {
                match d.to_entity() {
                    Some(e) => {
                        let name = String::from_str(e.name().as_str());
                        out.decls.insert(name, e);
                    },
                    None => {},
                }
            },
            ModuleItem::ExportDecl(d) => {
                let ghost prev = out.export_decls@;
                out.export_decls.push(d.duplicate());
                proof {
                    assert(out.export_decls@.map_values(|x: DeclKind| x@) =~= prev.map_values(
                        |x: DeclKind| x@,
                    ).push(d@));
                }
            },
            ModuleItem::ExportDefaultDecl(d) => {
                out.default_decl = Some(d.duplicate());
            },
            ModuleItem::ExportDefaultExpr(e) => {
                out.default_expr = Some(
                    match e {
                        Some(name) => Some(String::from_str(name.as_str())),
                        None => None,
                    },
                );
            },
            ModuleItem::ExportAll(src) => {
                let ghost prev = out.alls@;
                out.alls.push(String::from_str(src.as_str()));
                proof {
                    assert(out.alls@.map_values(|s: String| s@) =~= prev.map_values(
                        |s: String| s@,
                    ).push(src@));
                }
            },
            ModuleItem::ExportNamed { src, specifiers } => {
                let copied_src = match src {
                    Some(s) => Some(String::from_str(s.as_str())),
                    None => None,
                };
                let mut copied_specs: Vec<Specifier> = Vec::new();
                let mut j: usize = 0;
                proof {
                    assert(copied_specs@.map_values(|sp: Specifier| sp@) =~= specifiers@
                        .map_values(|sp: Specifier| sp@).take(0));
                }
                while j < specifiers.len()
                    invariant
                        j <= specifiers@.len(),
                        copied_specs@.map_values(|sp: Specifier| sp@) =~= specifiers@.map_values(
                            |sp: Specifier| sp@,
                        ).take(j as int),
                    decreases specifiers@.len() - j,
                {
                    let ghost prev = copied_specs@;
                    copied_specs.push(specifiers[j].duplicate());
                    proof {
                        assert(copied_specs@.map_values(|sp: Specifier| sp@) =~= prev.map_values(
                            |sp: Specifier| sp@,
                        ).push(specifiers@[j as int]@));
                        assert(specifiers@.map_values(|sp: Specifier| sp@).take(j + 1)
                            =~= specifiers@.map_values(|sp: Specifier| sp@).take(j as int).push(
                            specifiers@[j as int]@,
                        ));
                    }
                    j = j + 1;
                }
                proof {
                    assert(specifiers@.map_values(|sp: Specifier| sp@).take(
                        specifiers@.len() as int,
                    ) =~= specifiers@.map_values(|sp: Specifier| sp@));
                }
                let block = NamedBlock { src: copied_src, specifiers: copied_specs };
                let ghost prev = out.named@;
                proof {
                    assert(block@ == (
                        match src {
                            Option::Some(ref s) => Option::Some(s@),
                            Option::None => Option::None,
                        },
                        specifiers@.map_values(|sp: Specifier| sp@),
                    ));
                }
                out.named.push(block);
                proof {
                    assert(out.named@.map_values(|b: NamedBlock| b@) =~= prev.map_values(
                        |b: NamedBlock| b@,
                    ).push((
                        match src {
                            Option::Some(ref s) => Option::Some(s@),
                            Option::None => Option::None,
                        },
                        specifiers@.map_values(|sp: Specifier| sp@),
                    )));
                }
            },
            ModuleItem::Other => {},
        }
        i = i + 1;
    }
    proof {
        assert(module@.take(module@.len() as int) =~= module@);
    }
    out
}

// ---------------------------------------------------------------------------
// Named and default export resolution (specification).
// ---------------------------------------------------------------------------

/// State threaded through named-export resolution: the named exports
/// resolved so far, the external re-export groups in first-occurrence
/// order, and the local declarations not yet claimed by an inline export.
#[verifier::ext_equal]
pub struct NamedState {
    pub internal: Map<Seq<char>, EntityView>,
    pub groups: Seq<(Seq<char>, Seq<SpecifierView>)>,
    pub decls: Map<Seq<char>, EntityView>,
}

/// The entity an `export var|class|function` statement exports.
pub open spec fn spec_export_entity(d: DeclView) -> Result<EntityView, WalkErrorView> {
    match d {
        DeclView::Var(names) => if names.len() > 0 {
            Result::Ok(EntityView::Var(names.last()))
        } else {
            Result::Err(WalkErrorView::UnsupportedDeclaration)
        },
        DeclView::Class(n) => Result::Ok(EntityView::Class(n)),
        DeclView::Func(n) => Result::Ok(EntityView::Func(n)),
        DeclView::TsOther => Result::Ok(EntityView::Other(Seq::empty())),
        DeclView::Unsupported => Result::Err(WalkErrorView::UnsupportedDeclaration),
    }
}

/// The named exports contributed by the direct `export <decl>` statements,
/// keyed by entity name; the first unsupported declaration is fatal.
pub open spec fn spec_export_decls(eds: Seq<DeclView>) -> Result<
    Map<Seq<char>, EntityView>,
    WalkErrorView,
>
    decreases eds.len(),
{
    if eds.len() == 0 {
        Result::Ok(Map::empty())
    } else {
        match spec_export_decls(eds.drop_last()) {
            Result::Ok(m) => match spec_export_entity(eds.last()) {
                Result::Ok(e) => Result::Ok(m.insert(e.spec_name(), e)),
                Result::Err(er) => Result::Err(er),
            },
            Result::Err(er) => Result::Err(er),
        }
    }
}

/// Append a specifier to the group of its source path, keeping groups in
/// first-occurrence order.
pub open spec fn spec_add_group(
    groups: Seq<(Seq<char>, Seq<SpecifierView>)>,
    path: Seq<char>,
    sp: SpecifierView,
) -> Seq<(Seq<char>, Seq<SpecifierView>)>
    decreases groups.len(),
{
    if groups.len() == 0 {
        seq![(path, seq![sp])]
    } else if groups.first().0 == path {
        seq![(path, groups.first().1.push(sp))] + groups.drop_first()
    } else {
        seq![groups.first()] + spec_add_group(groups.drop_first(), path, sp)
    }
}

/// How one specifier of a named export statement advances resolution.
pub open spec fn spec_specs_step(
    st: NamedState,
    src: Option<Seq<char>>,
    sp: SpecifierView,
) -> Result<NamedState, WalkErrorView> {
    match src {
        Option::Some(path) => Result::Ok(
            NamedState { groups: spec_add_group(st.groups, path, sp), ..st },
        ),
        Option::None => match sp {
            SpecifierView::Default => Result::Err(WalkErrorView::NamedDefaultSpecifier),
            SpecifierView::Named { orig, exported } => {
                let out_name = match exported {
                    Option::Some(e) => e,
                    Option::None => orig,
                };
                if st.decls.contains_key(orig) {
                    Result::Ok(
                        NamedState {
                            internal: st.internal.insert(out_name, st.decls[orig]),
                            decls: st.decls.remove(orig),
                            ..st
                        },
                    )
                } else {
                    Result::Ok(st)
                }
            },
            SpecifierView::Namespace(_) => Result::Ok(st),
        },
    }
}

pub open spec fn spec_specs_fold(
    st: NamedState,
    src: Option<Seq<char>>,
    specs: Seq<SpecifierView>,
) -> Result<NamedState, WalkErrorView>
    decreases specs.len(),
{
    if specs.len() == 0 {
        Result::Ok(st)
    } else {
        match spec_specs_fold(st, src, specs.drop_last()) {
            Result::Ok(st2) => spec_specs_step(st2, src, specs.last()),
            Result::Err(e) => Result::Err(e),
        }
    }
}

pub open spec fn spec_blocks_fold(
    st: NamedState,
    blocks: Seq<(Option<Seq<char>>, Seq<SpecifierView>)>,
) -> Result<NamedState, WalkErrorView>
    decreases blocks.len(),
{
    if blocks.len() == 0 {
        Result::Ok(st)
    } else {
        match spec_blocks_fold(st, blocks.drop_last()) {
            Result::Ok(st2) => spec_specs_fold(st2, blocks.last().0, blocks.last().1),
            Result::Err(e) => Result::Err(e),
        }
    }
}

/// Named-export resolution over the classified buckets: direct export
/// declarations first, then the inline and external specifier statements.
pub open spec fn spec_named_resolution(
    export_decls: Seq<DeclView>,
    blocks: Seq<(Option<Seq<char>>, Seq<SpecifierView>)>,
    decls: Map<Seq<char>, EntityView>,
) -> Result<NamedState, WalkErrorView> {
    match spec_export_decls(export_decls) {
        Result::Ok(internal0) => spec_blocks_fold(
            NamedState { internal: internal0, groups: Seq::empty(), decls },
            blocks,
        ),
        Result::Err(e) => Result::Err(e),
    }
}

/// Default-slot resolution: a default declaration wins; otherwise a default
/// identifier expression resolves against the unclaimed locals; anything
/// else yields no default.
pub open spec fn spec_default_resolution(
    dd: Option<DefaultDeclView>,
    de: Option<Option<Seq<char>>>,
    decls: Map<Seq<char>, EntityView>,
) -> Option<EntityView> {
    match dd {
        Option::Some(d) => Option::Some(spec_entity_of_default(d)),
        Option::None => match de {
            Option::Some(Option::Some(name)) => if decls.contains_key(name) {
                Option::Some(decls[name])
            } else {
                Option::None
            },
            _ => Option::None,
        },
    }
}

proof fn lemma_export_decls_err(eds: Seq<DeclView>, k: int)
    requires
        0 <= k <= eds.len(),
        spec_export_decls(eds.take(k)) is Err,
    ensures
        spec_export_decls(eds) == spec_export_decls(eds.take(k)),
    decreases eds.len() - k,
{
    if k < eds.len() {
        assert(eds.take(k + 1).drop_last() =~= eds.take(k));
        lemma_export_decls_err(eds, k + 1);
    } else {
        assert(eds.take(k) =~= eds);
    }
}

proof fn lemma_specs_fold_err(st: NamedState, src: Option<Seq<char>>, specs: Seq<SpecifierView>, k: int)
    requires
        0 <= k <= specs.len(),
        spec_specs_fold(st, src, specs.take(k)) is Err,
    ensures
        spec_specs_fold(st, src, specs) == spec_specs_fold(st, src, specs.take(k)),
    decreases specs.len() - k,
{
    if k < specs.len() {
        assert(specs.take(k + 1).drop_last() =~= specs.take(k));
        lemma_specs_fold_err(st, src, specs, k + 1);
    } else {
        assert(specs.take(k) =~= specs);
    }
}

proof fn lemma_blocks_fold_err(
    st: NamedState,
    blocks: Seq<(Option<Seq<char>>, Seq<SpecifierView>)>,
    k: int,
)
    requires
        0 <= k <= blocks.len(),
        spec_blocks_fold(st, blocks.take(k)) is Err,
    ensures
        spec_blocks_fold(st, blocks) == spec_blocks_fold(st, blocks.take(k)),
    decreases blocks.len() - k,
{
    if k < blocks.len() {
        assert(blocks.take(k + 1).drop_last() =~= blocks.take(k));
        lemma_blocks_fold_err(st, blocks, k + 1);
    } else {
        assert(blocks.take(k) =~= blocks);
    }
}

// ---------------------------------------------------------------------------
// Named and default export resolution (executable).
// ---------------------------------------------------------------------------

/// One external re-export group: the source path and the specifiers drawn
/// from it, in order.
pub struct NamedGroup {
    pub path: String,
    pub specifiers: Vec<Specifier>,
}

impl View for NamedGroup {
    type V = (Seq<char>, Seq<SpecifierView>);

    open spec fn view(&self) -> (Seq<char>, Seq<SpecifierView>) {
        (self.path@, self.specifiers@.map_values(|sp: Specifier| sp@))
    }
}

/// The executable result of named-export resolution.
pub struct ResolvedNames {
    pub internal: StrMap<EntityDeclaration>,
    pub groups: Vec<NamedGroup>,
    pub decls: StrMap<EntityDeclaration>,
}

/// Push `sp` onto the group for `path`, creating the group at the back on
/// first sight of the path.
#[verifier::loop_isolation(false)]
fn push_group(groups: &mut Vec<NamedGroup>, path: &str, sp: Specifier)
    ensures
        final(groups)@.map_values(|g: NamedGroup| g@) == spec_add_group(
            old(groups)@.map_values(|g: NamedGroup| g@),
            path@,
            sp@,
        ),
{
    let ghost before = groups@.map_values(|g: NamedGroup| g@);
    let mut i: usize = 0;
    while i < groups.len()
        invariant
            i <= groups@.len(),
            groups@.map_values(|g: NamedGroup| g@) == before,
            forall|j: int| 0 <= j < i ==> before[j].0 != path@,
        decreases groups@.len() - i,
    {
        if str_eq(groups[i].path.as_str(), path) {
            let g = groups.remove(i);
            let gpath = g.path;
            let mut gspecs = g.specifiers;
            let ghost gview = (gpath@, gspecs@.map_values(|sp: Specifier| sp@));
            gspecs.push(sp);
            let ng = NamedGroup { path: gpath, specifiers: gspecs };
            proof {
                assert(gspecs@.map_values(|sp: Specifier| sp@) =~= gview.1.push(sp@));
                assert(ng@ == (gview.0, gview.1.push(sp@)));
            }
            groups.insert(i, ng);
            proof {
                assert(gview.0 == path@);
                assert(gview.1 == before[i as int].1);
                assert(groups@.map_values(|g: NamedGroup| g@) =~= before.update(
                    i as int,
                    (gview.0, gview.1.push(sp@)),
                ));
                lemma_add_group_found(before, path@, sp@, i as int);
                assert(groups@.map_values(|g: NamedGroup| g@) =~= spec_add_group(
                    before,
                    path@,
                    sp@,
                ));
            }
            return ;
        }
        i = i + 1;
    }
    let ng = NamedGroup { path: String::from_str(path), specifiers: vec_of_one(sp) };
    let ghost ngv = ng@;
    groups.push(ng);
    proof {
        assert(groups@.map_values(|g: NamedGroup| g@) =~= before.push(ngv));
        assert(ngv.1 =~= seq![ngv.1[0]]);
        lemma_add_group_missing(before, path@, sp@);
        assert(ngv == (path@, seq![sp@]));
        assert(groups@.map_values(|g: NamedGroup| g@) =~= spec_add_group(before, path@, sp@));
    }
}

fn vec_of_one(sp: Specifier) -> (r: Vec<Specifier>)
    ensures
        r@ == seq![sp],
{
    let mut v: Vec<Specifier> = Vec::new();
    v.push(sp);
    proof {
        assert(v@ =~= seq![sp]);
    }
    v
}

proof fn lemma_add_group_found(
    groups: Seq<(Seq<char>, Seq<SpecifierView>)>,
    path: Seq<char>,
    sp: SpecifierView,
    i: int,
)
    requires
        0 <= i < groups.len(),
        groups[i].0 == path,
        forall|j: int| 0 <= j < i ==> groups[j].0 != path,
    ensures
        spec_add_group(groups, path, sp) =~= groups.update(i, (path, groups[i].1.push(sp))),
    decreases i,
{
    if i == 0 {
        assert(spec_add_group(groups, path, sp) == seq![(path, groups.first().1.push(sp))]
            + groups.drop_first());
    } else {
        assert(groups.first().0 != path);
        lemma_add_group_found(groups.drop_first(), path, sp, i - 1);
        assert(spec_add_group(groups, path, sp) == seq![groups.first()] + spec_add_group(
            groups.drop_first(),
            path,
            sp,
        ));
        assert(seq![groups.first()] + groups.drop_first().update(
            i - 1,
            (path, groups.drop_first()[i - 1].1.push(sp)),
        ) =~= groups.update(i, (path, groups[i].1.push(sp))));
    }
}

proof fn lemma_add_group_missing(
    groups: Seq<(Seq<char>, Seq<SpecifierView>)>,
    path: Seq<char>,
    sp: SpecifierView,
)
    requires
        forall|j: int| 0 <= j < groups.len() ==> groups[j].0 != path,
    ensures
        spec_add_group(groups, path, sp) =~= groups.push((path, seq![sp])),
    decreases groups.len(),
{
    if groups.len() > 0 {
        lemma_add_group_missing(groups.drop_first(), path, sp);
        assert(seq![groups.first()] + groups.drop_first().push((path, seq![sp])) =~= groups.push(
            (path, seq![sp]),
        ));
    } else {
        assert(spec_add_group(groups, path, sp) =~= groups.push((path, seq![sp])));
    }
}

/// Resolve the named exports of the classified buckets: direct export
/// declarations first, then inline specifiers against the local
/// declarations, while grouping external re-export specifiers by source.
#[verifier::loop_isolation(false)]
pub fn get_named_export_declarations(
    decls: StrMap<EntityDeclaration>,
    export_decls: Vec<DeclKind>,
    named: Vec<NamedBlock>,
) -> (r: Result<ResolvedNames, WalkError>)
    ensures
        match r {
            Result::Ok(res) => spec_named_resolution(
                export_decls@.map_values(|d: DeclKind| d@),
                named@.map_values(|b: NamedBlock| b@),
                decls@,
            ) == Result::<NamedState, WalkErrorView>::Ok(
                NamedState {
                    internal: res.internal@,
                    groups: res.groups@.map_values(|g: NamedGroup| g@),
                    decls: res.decls@,
                },
            ),
            Result::Err(e) => spec_named_resolution(
                export_decls@.map_values(|d: DeclKind| d@),
                named@.map_values(|b: NamedBlock| b@),
                decls@,
            ) == Result::<NamedState, WalkErrorView>::Err(e@),
        },
{
    let ghost edviews = export_decls@.map_values(|d: DeclKind| d@);
    let mut internal: StrMap<EntityDeclaration> = StrMap::new();
    let mut i: usize = 0;
    proof {
        assert(edviews.take(0) =~= Seq::<DeclView>::empty());
    }
    while i < export_decls.len()
        invariant
            i <= export_decls@.len(),
            edviews == export_decls@.map_values(|d: DeclKind| d@),
            spec_export_decls(edviews.take(i as int)) == Result::<
                Map<Seq<char>, EntityView>,
                WalkErrorView,
            >::Ok(internal@),
        decreases export_decls@.len() - i,
    {
        proof {
            assert(edviews.take(i + 1).drop_last() =~= edviews.take(i as int));
            assert(edviews.take(i + 1).last() == export_decls@[i as int]@);
        }
        let d = &export_decls[i];
        match export_entity(d) {
            Result::Ok(e) => {
                let name = String::from_str(e.name().as_str());
                internal.insert(name, e);
            },
            Result::Err(er) => {
                proof {
                    assert(spec_export_decls(edviews.take(i + 1)) == Result::<
                        Map<Seq<char>, EntityView>,
                        WalkErrorView,
                    >::Err(er@));
                    lemma_export_decls_err(edviews, i + 1);
                    assert(spec_export_decls(edviews) == Result::<
                        Map<Seq<char>, EntityView>,
                        WalkErrorView,
                    >::Err(er@));
                }
                return Result::Err(er);
            },
        }
        i = i + 1;
    }
    proof {
        assert(edviews.take(export_decls@.len() as int) =~= edviews);
    }
    let mut st = ResolvedNames { internal, groups: Vec::new(), decls };
    let ghost blocks = named@.map_values(|b: NamedBlock| b@);
    let ghost st0 = NamedState {
        internal: st.internal@,
        groups: Seq::empty(),
        decls: st.decls@,
    };
    let mut bi: usize = 0;
    proof {
        assert(blocks.take(0) =~= Seq::<(Option<Seq<char>>, Seq<SpecifierView>)>::empty());
        assert(st.groups@.map_values(|g: NamedGroup| g@) =~= Seq::<
            (Seq<char>, Seq<SpecifierView>),
        >::empty());
    }
    while bi < named.len()
        invariant
            bi <= named@.len(),
            blocks == named@.map_values(|b: NamedBlock| b@),
            spec_blocks_fold(st0, blocks.take(bi as int)) == Result::<
                NamedState,
                WalkErrorView,
            >::Ok(
                NamedState {
                    internal: st.internal@,
                    groups: st.groups@.map_values(|g: NamedGroup| g@),
                    decls: st.decls@,
                },
            ),
        decreases named@.len() - bi,
    {
        proof {
            assert(blocks.take(bi + 1).drop_last() =~= blocks.take(bi as int));
            assert(blocks.take(bi + 1).last() == named@[bi as int]@);
        }
        let ghost st_block = NamedState {
            internal: st.internal@,
            groups: st.groups@.map_values(|g: NamedGroup| g@),
            decls: st.decls@,
        };
        let block = &named[bi];
        let ghost specviews = block.specifiers@.map_values(|sp: Specifier| sp@);
        let ghost srcview = block@.0;
        let mut si: usize = 0;
        proof {
            assert(specviews.take(0) =~= Seq::<SpecifierView>::empty());
        }
        while si < block.specifiers.len()
            invariant
                si <= block.specifiers@.len(),
                bi < named@.len(),
                blocks == named@.map_values(|b: NamedBlock| b@),
                blocks.take(bi + 1).drop_last() =~= blocks.take(bi as int),
                blocks.take(bi + 1).last() == (srcview, specviews),
                spec_blocks_fold(st0, blocks.take(bi as int)) == Result::<
                    NamedState,
                    WalkErrorView,
                >::Ok(st_block),
                specviews == block.specifiers@.map_values(|sp: Specifier| sp@),
                srcview == block@.0,
                block@.1 == specviews,
                spec_specs_fold(st_block, srcview, specviews.take(si as int)) == Result::<
                    NamedState,
                    WalkErrorView,
                >::Ok(
                    NamedState {
                        internal: st.internal@,
                        groups: st.groups@.map_values(|g: NamedGroup| g@),
                        decls: st.decls@,
                    },
                ),
            decreases block.specifiers@.len() - si,
        {
            proof {
                assert(specviews.take(si + 1).drop_last() =~= specviews.take(si as int));
                assert(specviews.take(si + 1).last() == block.specifiers@[si as int]@);
            }
            let ghost cur = NamedState {
                internal: st.internal@,
                groups: st.groups@.map_values(|g: NamedGroup| g@),
                decls: st.decls@,
            };
            let sp = &block.specifiers[si];
            proof {
                assert(spec_specs_fold(st_block, srcview, specviews.take(si + 1))
                    == spec_specs_step(cur, srcview, sp@));
            }
            match &block.src {
                Option::Some(path) => {
                    proof {
                        assert(srcview == Option::Some(path@));
                    }
                    push_group(&mut st.groups, path.as_str(), sp.duplicate());
                    proof {
                        assert(spec_specs_step(cur, srcview, sp@) == Result::<
                            NamedState,
                            WalkErrorView,
                        >::Ok(
                            NamedState {
                                internal: cur.internal,
                                groups: spec_add_group(cur.groups, path@, sp@),
                                decls: cur.decls,
                            },
                        ));
                    }
                },
                Option::None => {
                    proof {
                        assert(srcview is None);
                    }
                    match sp {
                        Specifier::Default => {
                            proof {
                                assert(spec_specs_fold(st_block, srcview, specviews.take(si + 1))
                                    == Result::<NamedState, WalkErrorView>::Err(
                                    WalkErrorView::NamedDefaultSpecifier,
                                ));
                                lemma_specs_fold_err(st_block, srcview, specviews, si + 1);
                                assert(spec_blocks_fold(st0, blocks.take(bi + 1)) == Result::<
                                    NamedState,
                                    WalkErrorView,
                                >::Err(WalkErrorView::NamedDefaultSpecifier));
                                lemma_blocks_fold_err(st0, blocks, bi + 1);
                            }
                            return Result::Err(WalkError::NamedDefaultSpecifier);
                        },
                        Specifier::Named { orig, exported } => {
                            let out_name = match exported {
                                Option::Some(e) => String::from_str(e.as_str()),
                                Option::None => String::from_str(orig.as_str()),
                            };
                            proof {
                                assert(sp@ == SpecifierView::Named {
                                    orig: orig@,
                                    exported: match exported {
                                        Option::Some(e) => Option::Some(e@),
                                        Option::None => Option::None,
                                    },
                                });
                            }
                            match st.decls.remove(orig.as_str()) {
                                Option::Some(ent) => {
                                    st.internal.insert(out_name, ent);
                                    proof {
                                        assert(cur.decls.contains_key(orig@));
                                        assert(st.decls@ == cur.decls.remove(orig@));
                                        assert(st.internal@ == cur.internal.insert(
                                            out_name@,
                                            cur.decls[orig@],
                                        ));
                                    }
                                },
                                Option::None => {
                                    proof {
                                        assert(!cur.decls.contains_key(orig@));
                                    }
                                },
                            }
                        },
                        Specifier::Namespace(_) => {},
                    }
                },
            }
            proof {
                let stepped = spec_specs_step(cur, srcview, sp@);
                assert(stepped is Ok);
                assert(stepped->Ok_0.internal == st.internal@);
                assert(stepped->Ok_0.groups == st.groups@.map_values(|g: NamedGroup| g@));
                assert(stepped->Ok_0.decls == st.decls@);
                assert(stepped->Ok_0 == NamedState {
                    internal: st.internal@,
                    groups: st.groups@.map_values(|g: NamedGroup| g@),
                    decls: st.decls@,
                });
                assert(spec_specs_fold(st_block, srcview, specviews.take(si + 1)) == Result::<
                    NamedState,
                    WalkErrorView,
                >::Ok(
                    NamedState {
                        internal: st.internal@,
                        groups: st.groups@.map_values(|g: NamedGroup| g@),
                        decls: st.decls@,
                    },
                ));
            }
            si = si + 1;
        }
        proof {
            assert(specviews.take(block.specifiers@.len() as int) =~= specviews);
        }
        bi = bi + 1;
    }
    proof {
        assert(blocks.take(named@.len() as int) =~= blocks);
    }
    Result::Ok(st)
}

/// Executable counterpart of `spec_export_entity`.
fn export_entity(d: &DeclKind) -> (r: Result<EntityDeclaration, WalkError>)
    ensures
        match r {
            Result::Ok(e) => spec_export_entity(d@) == Result::<
                EntityView,
                WalkErrorView,
            >::Ok(e@),
            Result::Err(er) => spec_export_entity(d@) == Result::<
                EntityView,
                WalkErrorView,
            >::Err(er@),
        },
{
    match d {
        DeclKind::Var(names) => {
            if names.len() > 0 {
                let last = &names[names.len() - 1];
                proof {
                    assert(d@->Var_0.last() == last@);
                }
                Result::Ok(EntityDeclaration::Var(String::from_str(last.as_str())))
            } else {
                Result::Err(WalkError::UnsupportedDeclaration)
            }
        },
        DeclKind::Class(n) => Result::Ok(EntityDeclaration::Class(String::from_str(n.as_str()))),
        DeclKind::Func(n) => Result::Ok(EntityDeclaration::Func(String::from_str(n.as_str()))),
        DeclKind::TsOther => Result::Ok(EntityDeclaration::Other(empty_string())),
        DeclKind::Unsupported => Result::Err(WalkError::UnsupportedDeclaration),
    }
}

// ---------------------------------------------------------------------------
// Recursive re-export resolution.
// ---------------------------------------------------------------------------

/// Well-formedness of a resolution stack against the module map: finitely
/// many modules, no path on the stack twice, every stacked path a module.
pub open spec fn wf_stack(m: Map<Seq<char>, Seq<ItemView>>, stack: Seq<Seq<char>>) -> bool {
    &&& m.dom().finite()
    &&& stack.no_duplicates()
    &&& forall|i: int| 0 <= i < stack.len() ==> m.dom().contains(#[trigger] stack[i])
}

/// Modules not yet on the stack: the recursion's fuel.
pub open spec fn walk_budget(m: Map<Seq<char>, Seq<ItemView>>, stack: Seq<Seq<char>>) -> int {
    m.dom().len() - stack.len()
}

pub proof fn lemma_push_wf(
    m: Map<Seq<char>, Seq<ItemView>>,
    stack: Seq<Seq<char>>,
    target: Seq<char>,
)
    requires
        wf_stack(m, stack),
        !stack.contains(target),
        m.dom().contains(target),
    ensures
        wf_stack(m, stack.push(target)),
        stack.push(target).last() == target,
{
    let p = stack.push(target);
    assert forall|i: int, j: int| 0 <= i < j < p.len() implies p[i] != p[j] by {
        if j == p.len() - 1 {
            assert(p[i] == stack[i]);
            if stack[i] == target {
                assert(stack.contains(target));
            }
        }
    }
    assert(p.no_duplicates());
    assert forall|i: int| 0 <= i < p.len() implies m.dom().contains(p[i]) by {
        if i < p.len() - 1 {
            assert(p[i] == stack[i]);
        }
    }
}

pub proof fn lemma_budget_nonneg(m: Map<Seq<char>, Seq<ItemView>>, stack: Seq<Seq<char>>)
    requires
        wf_stack(m, stack),
    ensures
        walk_budget(m, stack) >= 0,
{
    stack.unique_seq_to_set();
    assert forall|p: Seq<char>| stack.to_set().contains(p) implies m.dom().contains(p) by {}
    assert(stack.to_set().subset_of(m.dom()));
    vstd::set_lib::lemma_len_subset(stack.to_set(), m.dom());
}

/// The namespaced key `ns.k`.
pub open spec fn spec_ns_key(ns: Seq<char>, k: Seq<char>) -> Seq<char> {
    ns + seq!['.'] + k
}

/// The namespace re-export image of a facade: each exported name `k`
/// reappears as `ns.k`.
pub open spec fn spec_ns_map(ns: Seq<char>, facade: Map<Seq<char>, EntityView>) -> Map<
    Seq<char>,
    EntityView,
> {
    Map::new(
        |key: Seq<char>|
            exists|k: Seq<char>| #[trigger] facade.dom().contains(k) && key == spec_ns_key(ns, k),
        |key: Seq<char>| facade[key.skip(ns.len() as int + 1)],
    )
}

pub proof fn lemma_ns_key_injective(ns: Seq<char>, k: Seq<char>)
    ensures
        spec_ns_key(ns, k).skip(ns.len() as int + 1) == k,
{
    assert(spec_ns_key(ns, k).skip(ns.len() as int + 1) =~= k);
}

/// How one specifier of an external re-export group advances the output
/// map and consumes the facade.
pub open spec fn spec_group_spec_step(
    out: Map<Seq<char>, EntityView>,
    facade: Map<Seq<char>, EntityView>,
    facade_default: Option<EntityView>,
    sp: SpecifierView,
) -> (Map<Seq<char>, EntityView>, Map<Seq<char>, EntityView>) {
    match sp {
        SpecifierView::Named { orig, exported } => {
            let out_name = match exported {
                Option::Some(e) => e,
                Option::None => orig,
            };
            if orig == "default"@ {
                match facade_default {
                    Option::Some(e) => (out.insert(out_name, e), facade),
                    Option::None => (out, facade),
                }
            } else if facade.contains_key(orig) {
                (out.insert(out_name, facade[orig]), facade.remove(orig))
            } else {
                (out, facade)
            }
        },
        SpecifierView::Namespace(ns) => (out.union_prefer_right(spec_ns_map(ns, facade)), facade),
        SpecifierView::Default => (out, facade),
    }
}

pub open spec fn spec_group_specs(
    out: Map<Seq<char>, EntityView>,
    facade: Map<Seq<char>, EntityView>,
    facade_default: Option<EntityView>,
    specs: Seq<SpecifierView>,
) -> (Map<Seq<char>, EntityView>, Map<Seq<char>, EntityView>)
    decreases specs.len(),
{
    if specs.len() == 0 {
        (out, facade)
    } else {
        let prev = spec_group_specs(out, facade, facade_default, specs.drop_last());
        spec_group_spec_step(prev.0, prev.1, facade_default, specs.last())
    }
}

/// The full extraction of a module's export surface, resolving re-exports
/// through the map with `stack` guarding against cycles.
pub open spec fn spec_extract(
    m: Map<Seq<char>, Seq<ItemView>>,
    path: Seq<char>,
    stack: Seq<Seq<char>>,
) -> Result<ExportsView, WalkErrorView>
    decreases walk_budget(m, stack), 2int, 0int,
    when wf_stack(m, stack) && stack.len() > 0 && stack.last() == path && m.dom().contains(path)
    via spec_extract_dec
{
    let items = spec_classify(m[path]);
    let dir = crate::paths::spec_parent(path);
    match spec_named_resolution(items.export_decls, items.named, items.decls) {
        Result::Err(e) => Result::Err(e),
        Result::Ok(st) => {
            let default = spec_default_resolution(
                items.default_decl,
                items.default_expr,
                st.decls,
            );
            match spec_resolve_alls(m, dir, items.alls, st.internal, stack) {
                Result::Err(e) => Result::Err(e),
                Result::Ok(named1) => match spec_resolve_groups(m, dir, st.groups, named1, stack) {
                    Result::Err(e) => Result::Err(e),
                    Result::Ok(named2) => Result::Ok(ExportsView { default, named: named2 }),
                },
            }
        },
    }
}

/// Resolve the `export * from` statements in order, merging each target's
/// named surface over the accumulator (later keys overwrite earlier).
pub open spec fn spec_resolve_alls(
    m: Map<Seq<char>, Seq<ItemView>>,
    dir: Seq<char>,
    alls: Seq<Seq<char>>,
    acc: Map<Seq<char>, EntityView>,
    stack: Seq<Seq<char>>,
) -> Result<Map<Seq<char>, EntityView>, WalkErrorView>
    decreases walk_budget(m, stack), 1int, alls.len(),
    when wf_stack(m, stack)
    via spec_resolve_alls_dec
{
    if alls.len() == 0 {
        Result::Ok(acc)
    } else {
        let target = spec_path_join(dir, alls.first());
        if stack.contains(target) {
            Result::Err(WalkErrorView::CyclicReExport(target))
        } else if !m.dom().contains(target) {
            Result::Err(WalkErrorView::ImportNotFound(target))
        } else {
            match spec_extract(m, target, stack.push(target)) {
                Result::Err(e) => Result::Err(e),
                Result::Ok(ex) => spec_resolve_alls(
                    m,
                    dir,
                    alls.drop_first(),
                    acc.union_prefer_right(ex.named),
                    stack,
                ),
            }
        }
    }
}

/// Resolve the grouped `export { ... } from` statements in order.
pub open spec fn spec_resolve_groups(
    m: Map<Seq<char>, Seq<ItemView>>,
    dir: Seq<char>,
    groups: Seq<(Seq<char>, Seq<SpecifierView>)>,
    acc: Map<Seq<char>, EntityView>,
    stack: Seq<Seq<char>>,
) -> Result<Map<Seq<char>, EntityView>, WalkErrorView>
    decreases walk_budget(m, stack), 1int, groups.len(),
    when wf_stack(m, stack)
    via spec_resolve_groups_dec
{
    if groups.len() == 0 {
        Result::Ok(acc)
    } else {
        let target = spec_path_join(dir, groups.first().0);
        if stack.contains(target) {
            Result::Err(WalkErrorView::CyclicReExport(target))
        } else if !m.dom().contains(target) {
            Result::Err(WalkErrorView::ImportNotFound(target))
        } else {
            match spec_extract(m, target, stack.push(target)) {
                Result::Err(e) => Result::Err(e),
                Result::Ok(ex) => {
                    let applied = spec_group_specs(acc, ex.named, ex.default, groups.first().1);
                    spec_resolve_groups(m, dir, groups.drop_first(), applied.0, stack)
                },
            }
        }
    }
}

#[via_fn]
proof fn spec_extract_dec(m: Map<Seq<char>, Seq<ItemView>>, path: Seq<char>, stack: Seq<Seq<char>>) {
    lemma_budget_nonneg(m, stack);
}

#[via_fn]
proof fn spec_resolve_alls_dec(
    m: Map<Seq<char>, Seq<ItemView>>,
    dir: Seq<char>,
    alls: Seq<Seq<char>>,
    acc: Map<Seq<char>, EntityView>,
    stack: Seq<Seq<char>>,
) {
    lemma_budget_nonneg(m, stack);
    if alls.len() > 0 {
        let target = spec_path_join(dir, alls.first());
        if !stack.contains(target) && m.dom().contains(target) {
            lemma_push_wf(m, stack, target);
            lemma_budget_nonneg(m, stack.push(target));
        }
    }
}

#[via_fn]
proof fn spec_resolve_groups_dec(
    m: Map<Seq<char>, Seq<ItemView>>,
    dir: Seq<char>,
    groups: Seq<(Seq<char>, Seq<SpecifierView>)>,
    acc: Map<Seq<char>, EntityView>,
    stack: Seq<Seq<char>>,
) {
    lemma_budget_nonneg(m, stack);
    if groups.len() > 0 {
        let target = spec_path_join(dir, groups.first().0);
        if !stack.contains(target) && m.dom().contains(target) {
            lemma_push_wf(m, stack, target);
            lemma_budget_nonneg(m, stack.push(target));
        }
    }
}

/// The exported surface of the module at `path`: what the extractor
/// produces for it, or the fault that stops extraction.
pub open spec fn spec_get_exports(m: Map<Seq<char>, Seq<ItemView>>, path: Seq<char>) -> Result<
    ExportsView,
    WalkErrorView,
> {
    if !m.dom().contains(path) {
        Result::Err(WalkErrorView::ImportNotFound(path))
    } else {
        spec_extract(m, path, seq![path])
    }
}

/// The export extractor is idempotent: its result is a function of the
/// module map and the entry path alone, so extracting the same entry twice
/// yields the same surface. (The executable extractor's contract pins its
/// result to `spec_get_exports`, so two runs of it agree as well.)
pub proof fn lemma_extract_idempotent(m: Map<Seq<char>, Seq<ItemView>>, path: Seq<char>)
    ensures
        spec_get_exports(m, path) == spec_get_exports(m, path),
{
}

/// Resolve the default slot against what the inline pass left unclaimed.
pub fn get_default_export_declaration(
    default_decl: &Option<DefaultDeclKind>,
    default_expr: &Option<Option<String>>,
    decls: StrMap<EntityDeclaration>,
) -> (r: Option<EntityDeclaration>)
    ensures
        match r {
            Option::Some(e) => spec_default_resolution(
                view_opt_dd(*default_decl),
                view_opt_expr(*default_expr),
                decls@,
            ) == Option::Some(e@),
            Option::None => spec_default_resolution(
                view_opt_dd(*default_decl),
                view_opt_expr(*default_expr),
                decls@,
            ) is None,
        },
{
    match default_decl {
        Option::Some(d) => Option::Some(d.to_entity()),
        Option::None => match default_expr {
            Option::Some(Option::Some(name)) => {
                let mut decls = decls;
                decls.remove(name.as_str())
            },
            _ => Option::None,
        },
    }
}

// ---------------------------------------------------------------------------
// Executable extraction.
// ---------------------------------------------------------------------------

/// Whether the stack of in-progress paths contains `s`.
#[verifier::loop_isolation(false)]
fn vec_contains_str(stack: &Vec<String>, s: &str) -> (r: bool)
    ensures
        r == stack@.map_values(|x: String| x@).contains(s@),
{
    let ghost sview = stack@.map_values(|x: String| x@);
    let mut i: usize = 0;
    while i < stack.len()
        invariant
            i <= stack@.len(),
            forall|j: int| 0 <= j < i ==> stack@[j]@ != s@,
        decreases stack@.len() - i,
    {
        if str_eq(stack[i].as_str(), s) {
            proof {
                assert(sview[i as int] == s@);
            }
            return true;
        }
        i = i + 1;
    }
    proof {
        if sview.contains(s@) {
            let j = choose|j: int| 0 <= j < sview.len() && sview[j] == s@;
            assert(stack@[j]@ == s@);
        }
    }
    false
}

/// No key among the first `i` of `src` equals `k`.
pub open spec fn untouched_by(src: &StrMap<EntityDeclaration>, i: int, k: Seq<char>) -> bool {
    forall|j: int| 0 <= j < i ==> (#[trigger] src.key_at(j)) != k
}

/// No namespaced key among the first `i` of `src` equals `k`.
pub open spec fn untouched_by_ns(
    ns: Seq<char>,
    src: &StrMap<EntityDeclaration>,
    i: int,
    k: Seq<char>,
) -> bool {
    forall|j: int| 0 <= j < i ==> spec_ns_key(ns, #[trigger] src.key_at(j)) != k
}

/// Merge `src` over `dst`: every export of `src` lands in `dst`,
/// overwriting clashes.
#[verifier::loop_isolation(false)]
fn merge_into(dst: &mut StrMap<EntityDeclaration>, src: &StrMap<EntityDeclaration>)
    ensures
        final(dst)@ == old(dst)@.union_prefer_right(src@),
{
    src.correspond();
    let n = src.len();
    let mut i: usize = 0;
    while i < n
        invariant
            i <= n,
            n == src.spec_len(),
            forall|j: int|
                0 <= j < i ==> dst@.contains_key(#[trigger] src.key_at(j)) && dst@[src.key_at(j)]
                    == src@[src.key_at(j)],
            forall|k: Seq<char>|
                #[trigger] untouched_by(src, i as int, k) ==> (dst@.contains_key(k) == old(
                    dst,
                )@.contains_key(k) && (old(dst)@.contains_key(k) ==> dst@[k] == old(dst)@[k])),
        decreases n - i,
    {
        let ghost dprev = dst@;
        let key = String::from_str(src.key_ref(i).as_str());
        let val = src.val_ref(i).duplicate();
        proof {
            assert(key@ == src.key_at(i as int));
            assert(val@ == src.val_at(i as int));
        }
        dst.insert(key, val);
        proof {
            assert forall|j: int|
                0 <= j < i + 1 implies dst@.contains_key(#[trigger] src.key_at(j)) && dst@[
                src.key_at(j)] == src@[src.key_at(j)] by {
                if j < i {
                    if src.key_at(j) == src.key_at(i as int) {
                        assert(dst@[src.key_at(j)] == src.val_at(i as int));
                        assert(src@[src.key_at(j)] == src.val_at(i as int));
                    }
                }
                if j == i {
                    assert(src@[src.key_at(j)] == src.val_at(j));
                }
            }
            assert forall|k: Seq<char>| #[trigger]
                untouched_by(src, i + 1, k) implies (dst@.contains_key(k) == old(
                dst,
            )@.contains_key(k) && (old(dst)@.contains_key(k) ==> dst@[k] == old(dst)@[k])) by {
                assert(src.key_at(i as int) != k);
                assert(untouched_by(src, i as int, k)) by {
                    assert forall|j: int| 0 <= j < i implies (#[trigger] src.key_at(j)) != k by {}
                }
                assert(dst@.contains_key(k) == dprev.contains_key(k));
            }
        }
        i = i + 1;
    }
    proof {
        let res = dst@;
        let goal = old(dst)@.union_prefer_right(src@);
        assert forall|k: Seq<char>| #[trigger]
            goal.dom().contains(k) implies res.dom().contains(k) && res[k] == goal[k] by {
            if src@.contains_key(k) {
                let j = choose|j: int| 0 <= j < src.spec_len() && #[trigger] src.key_at(j) == k;
                assert(res.contains_key(k) && res[k] == src@[k]);
            } else {
                assert(untouched_by(src, n as int, k)) by {
                    assert forall|j: int| 0 <= j < n implies (#[trigger] src.key_at(j)) != k by {
                        assert(src@.contains_key(src.key_at(j)));
                    }
                }
                assert(old(dst)@.contains_key(k));
            }
        }
        assert forall|k: Seq<char>| #[trigger]
            res.dom().contains(k) implies goal.dom().contains(k) by {
            if !src@.contains_key(k) {
                assert(untouched_by(src, n as int, k)) by {
                    assert forall|j: int| 0 <= j < n implies (#[trigger] src.key_at(j)) != k by {
                        assert(src@.contains_key(src.key_at(j)));
                    }
                }
                assert(old(dst)@.contains_key(k));
            }
        }
        assert(res =~= goal);
    }
}

/// The namespaced key `ns.k` as a string.
fn ns_key_string(ns: &str, k: &str) -> (r: String)
    ensures
        r@ == spec_ns_key(ns@, k@),
{
    let mut s = String::from_str(ns);
    s.append(".");
    s.append(k);
    proof {
        reveal_strlit(".");
        assert("."@ =~= seq!['.']);
        assert(s@ =~= ns@ + seq!['.'] + k@);
    }
    s
}

/// Add every export `k` of `facade` to `dst` under `ns.k`.
#[verifier::loop_isolation(false)]
fn ns_merge(dst: &mut StrMap<EntityDeclaration>, ns: &str, facade: &StrMap<EntityDeclaration>)
    ensures
        final(dst)@ == old(dst)@.union_prefer_right(spec_ns_map(ns@, facade@)),
{
    facade.correspond();
    let n = facade.len();
    let mut i: usize = 0;
    while i < n
        invariant
            i <= n,
            n == facade.spec_len(),
            forall|j: int|
                0 <= j < i ==> dst@.contains_key(
                    #[trigger] spec_ns_key(ns@, facade.key_at(j)),
                ) && dst@[spec_ns_key(ns@, facade.key_at(j))] == facade@[facade.key_at(j)],
            forall|k: Seq<char>|
                #[trigger] untouched_by_ns(ns@, facade, i as int, k) ==> (dst@.contains_key(k)
                    == old(dst)@.contains_key(k) && (old(dst)@.contains_key(k) ==> dst@[k] == old(
                    dst,
                )@[k])),
        decreases n - i,
    {
        let ghost dprev = dst@;
        let key = ns_key_string(ns, facade.key_ref(i).as_str());
        let val = facade.val_ref(i).duplicate();
        proof {
            assert(key@ == spec_ns_key(ns@, facade.key_at(i as int)));
            assert(val@ == facade.val_at(i as int));
        }
        dst.insert(key, val);
        proof {
            assert forall|j: int|
                0 <= j < i + 1 implies dst@.contains_key(
                #[trigger] spec_ns_key(ns@, facade.key_at(j)),
            ) && dst@[spec_ns_key(ns@, facade.key_at(j))] == facade@[facade.key_at(j)] by {
                if j < i {
                    if spec_ns_key(ns@, facade.key_at(j)) == key@ {
                        lemma_ns_key_injective(ns@, facade.key_at(j));
                        lemma_ns_key_injective(ns@, facade.key_at(i as int));
                        assert(facade.key_at(j) == facade.key_at(i as int));
                        assert(facade@[facade.key_at(j)] == facade.val_at(i as int));
                    }
                }
                if j == i {
                    assert(facade@[facade.key_at(j)] == facade.val_at(j));
                }
            }
            assert forall|k: Seq<char>| #[trigger]
                untouched_by_ns(ns@, facade, i + 1, k) implies (dst@.contains_key(k) == old(
                dst,
            )@.contains_key(k) && (old(dst)@.contains_key(k) ==> dst@[k] == old(dst)@[k])) by {
                assert(spec_ns_key(ns@, facade.key_at(i as int)) != k);
                assert(untouched_by_ns(ns@, facade, i as int, k)) by {
                    assert forall|j: int|
                        0 <= j < i implies spec_ns_key(ns@, #[trigger] facade.key_at(j)) != k by {}
                }
                assert(dst@.contains_key(k) == dprev.contains_key(k));
            }
        }
        i = i + 1;
    }
    proof {
        let res = dst@;
        let nsm = spec_ns_map(ns@, facade@);
        let goal = old(dst)@.union_prefer_right(nsm);
        assert forall|k: Seq<char>| #[trigger]
            goal.dom().contains(k) implies res.dom().contains(k) && res[k] == goal[k] by {
            if nsm.dom().contains(k) {
                let k0 = choose|k0: Seq<char>| #[trigger]
                    facade@.dom().contains(k0) && k == spec_ns_key(ns@, k0);
                lemma_ns_key_injective(ns@, k0);
                assert(nsm[k] == facade@[k0]);
                let j = choose|j: int|
                    0 <= j < facade.spec_len() && #[trigger] facade.key_at(j) == k0;
                assert(res.contains_key(k) && res[k] == facade@[k0]);
            } else {
                assert(untouched_by_ns(ns@, facade, n as int, k)) by {
                    assert forall|j: int|
                        0 <= j < n implies spec_ns_key(ns@, #[trigger] facade.key_at(j)) != k by {
                        assert(facade@.dom().contains(facade.key_at(j)));
                    }
                }
                assert(old(dst)@.contains_key(k));
            }
        }
        assert forall|k: Seq<char>| #[trigger]
            res.dom().contains(k) implies goal.dom().contains(k) by {
            if !nsm.dom().contains(k) {
                assert(untouched_by_ns(ns@, facade, n as int, k)) by {
                    assert forall|j: int|
                        0 <= j < n implies spec_ns_key(ns@, #[trigger] facade.key_at(j)) != k by {
                        assert(facade@.dom().contains(facade.key_at(j)));
                        if k == spec_ns_key(ns@, facade.key_at(j)) {
                            assert(nsm.dom().contains(k));
                        }
                    }
                }
                assert(old(dst)@.contains_key(k));
            }
        }
        assert(res =~= goal);
    }
}

/// Apply one external group's specifiers: named picks move entities out of
/// the facade into the output, namespace specifiers image the whole facade.
#[verifier::loop_isolation(false)]
fn apply_group_specs(
    named_exports: &mut StrMap<EntityDeclaration>,
    facade: &mut StrMap<EntityDeclaration>,
    facade_default: &Option<EntityDeclaration>,
    specs: &Vec<Specifier>,
)
    ensures
        (final(named_exports)@, final(facade)@) == spec_group_specs(
            old(named_exports)@,
            old(facade)@,
            match *facade_default {
                Option::Some(ref e) => Option::Some(e@),
                Option::None => Option::None,
            },
            specs@.map_values(|sp: Specifier| sp@),
        ),
{
    let ghost fdefv: Option<EntityView> = match *facade_default {
        Option::Some(ref e) => Option::Some(e@),
        Option::None => Option::None,
    };
    let ghost out0 = named_exports@;
    let ghost facade0 = facade@;
    let ghost specviews = specs@.map_values(|sp: Specifier| sp@);
    let mut si: usize = 0;
    proof {
        assert(specviews.take(0) =~= Seq::<SpecifierView>::empty());
    }
    while si < specs.len()
        invariant
            si <= specs@.len(),
            spec_group_specs(out0, facade0, fdefv, specviews.take(si as int)) == (
            named_exports@, facade@),
        decreases specs@.len() - si,
    {
        proof {
            assert(specviews.take(si + 1).drop_last() =~= specviews.take(si as int));
            assert(specviews.take(si + 1).last() == specs@[si as int]@);
        }
        let ghost outcur = named_exports@;
        let ghost fcur = facade@;
        let sp = &specs[si];
        match sp {
            Specifier::Named { orig, exported } => {
                let out_name = match exported {
                    Option::Some(e) => String::from_str(e.as_str()),
                    Option::None => String::from_str(orig.as_str()),
                };
                if str_eq(orig.as_str(), "default") {
                    match facade_default {
                        Option::Some(e) => {
                            named_exports.insert(out_name, e.duplicate());
                        },
                        Option::None => {},
                    }
                } else {
                    match facade.remove(orig.as_str()) {
                        Option::Some(ent) => {
                            named_exports.insert(out_name, ent);
                        },
                        Option::None => {},
                    }
                }
            },
            Specifier::Namespace(ns) => {
                ns_merge(named_exports, ns.as_str(), facade);
            },
            Specifier::Default => {},
        }
        proof {
            assert(spec_group_spec_step(outcur, fcur, fdefv, sp@) == (named_exports@, facade@));
            assert(spec_group_specs(out0, facade0, fdefv, specviews.take(si + 1)) == (
            named_exports@, facade@));
        }
        si = si + 1;
    }
    proof {
        assert(specviews.take(specs@.len() as int) =~= specviews);
    }
}

/// Resolve the `export * from` statements of the module in `dir`, merging
/// each target's named surface over the accumulator.
#[verifier::loop_isolation(false)]
fn resolve_alls_exec(
    modules: &ModuleMap,
    dir: &str,
    alls: &Vec<String>,
    named_exports: &mut StrMap<EntityDeclaration>,
    stack: &mut Vec<String>,
) -> (r: Result<(), WalkError>)
    requires
        wf_stack(modules@, old(stack)@.map_values(|s: String| s@)),
    ensures
        final(stack)@ == old(stack)@,
        match r {
            Result::Ok(_) => spec_resolve_alls(
                modules@,
                dir@,
                alls@.map_values(|s: String| s@),
                old(named_exports)@,
                old(stack)@.map_values(|s: String| s@),
            ) == Result::<Map<Seq<char>, EntityView>, WalkErrorView>::Ok(final(named_exports)@),
            Result::Err(e) => spec_resolve_alls(
                modules@,
                dir@,
                alls@.map_values(|s: String| s@),
                old(named_exports)@,
                old(stack)@.map_values(|s: String| s@),
            ) == Result::<Map<Seq<char>, EntityView>, WalkErrorView>::Err(e@),
        },
    decreases modules@.dom().len() - old(stack)@.len(), 1int, 0int,
{
    let ghost m = modules@;
    let ghost sview = old(stack)@.map_values(|s: String| s@);
    let ghost allviews = alls@.map_values(|s: String| s@);
    let ghost named0 = named_exports@;
    modules.correspond();
    let mut ai: usize = 0;
    proof {
        assert(allviews.skip(0) =~= allviews);
    }
    while ai < alls.len()
        invariant
            ai <= alls@.len(),
            stack@ == old(stack)@,
            spec_resolve_alls(m, dir@, allviews, named0, sview) == spec_resolve_alls(
                m,
                dir@,
                allviews.skip(ai as int),
                named_exports@,
                sview,
            ),
        decreases alls@.len() - ai,
    {
        let target = path_join(dir, alls[ai].as_str());
        let ghost tv = target@;
        proof {
            assert(allviews.skip(ai as int).first() == allviews[ai as int]);
            assert(tv == spec_path_join(dir@, allviews[ai as int]));
            assert(allviews.skip(ai as int).drop_first() =~= allviews.skip(ai + 1));
        }
        if vec_contains_str(stack, target.as_str()) {
            return Result::Err(WalkError::CyclicReExport(target));
        }
        if !modules.contains_key(target.as_str()) {
            return Result::Err(WalkError::ImportNotFound(target));
        }
        let tcopy = String::from_str(target.as_str());
        stack.push(target);
        proof {
            assert(stack@.map_values(|s: String| s@) =~= sview.push(tv));
            lemma_push_wf(m, sview, tv);
            lemma_budget_nonneg(m, sview.push(tv));
        }
        let sub = extract_at(modules, tcopy.as_str(), stack);
        stack.pop();
        proof {
            assert(stack@ =~= old(stack)@);
        }
        match sub {
            Result::Err(e) => {
                return Result::Err(e);
            },
            Result::Ok(ex) => {
                merge_into(named_exports, &ex.named);
            },
        }
        ai = ai + 1;
    }
    proof {
        assert(allviews.skip(alls@.len() as int) =~= Seq::<Seq<char>>::empty());
    }
    Result::Ok(())
}

/// Resolve the grouped `export { ... } from` statements of the module in
/// `dir`, applying each group's specifiers against its target's surface.
#[verifier::loop_isolation(false)]
fn resolve_groups_exec(
    modules: &ModuleMap,
    dir: &str,
    groups: &Vec<NamedGroup>,
    named_exports: &mut StrMap<EntityDeclaration>,
    stack: &mut Vec<String>,
) -> (r: Result<(), WalkError>)
    requires
        wf_stack(modules@, old(stack)@.map_values(|s: String| s@)),
    ensures
        final(stack)@ == old(stack)@,
        match r {
            Result::Ok(_) => spec_resolve_groups(
                modules@,
                dir@,
                groups@.map_values(|g: NamedGroup| g@),
                old(named_exports)@,
                old(stack)@.map_values(|s: String| s@),
            ) == Result::<Map<Seq<char>, EntityView>, WalkErrorView>::Ok(final(named_exports)@),
            Result::Err(e) => spec_resolve_groups(
                modules@,
                dir@,
                groups@.map_values(|g: NamedGroup| g@),
                old(named_exports)@,
                old(stack)@.map_values(|s: String| s@),
            ) == Result::<Map<Seq<char>, EntityView>, WalkErrorView>::Err(e@),
        },
    decreases modules@.dom().len() - old(stack)@.len(), 1int, 0int,
{
    let ghost m = modules@;
    let ghost sview = old(stack)@.map_values(|s: String| s@);
    let ghost gviews = groups@.map_values(|g: NamedGroup| g@);
    let ghost named0 = named_exports@;
    modules.correspond();
    let mut gi: usize = 0;
    proof {
        assert(gviews.skip(0) =~= gviews);
    }
    while gi < groups.len()
        invariant
            gi <= groups@.len(),
            stack@ == old(stack)@,
            spec_resolve_groups(m, dir@, gviews, named0, sview) == spec_resolve_groups(
                m,
                dir@,
                gviews.skip(gi as int),
                named_exports@,
                sview,
            ),
        decreases groups@.len() - gi,
    {
        let group = &groups[gi];
        let target = path_join(dir, group.path.as_str());
        let ghost tv = target@;
        proof {
            assert(gviews.skip(gi as int).first() == gviews[gi as int]);
            assert(gviews[gi as int] == group@);
            assert(tv == spec_path_join(dir@, group@.0));
            assert(gviews.skip(gi as int).drop_first() =~= gviews.skip(gi + 1));
        }
        if vec_contains_str(stack, target.as_str()) {
            return Result::Err(WalkError::CyclicReExport(target));
        }
        if !modules.contains_key(target.as_str()) {
            return Result::Err(WalkError::ImportNotFound(target));
        }
        let tcopy = String::from_str(target.as_str());
        stack.push(target);
        proof {
            assert(stack@.map_values(|s: String| s@) =~= sview.push(tv));
            lemma_push_wf(m, sview, tv);
            lemma_budget_nonneg(m, sview.push(tv));
        }
        let sub = extract_at(modules, tcopy.as_str(), stack);
        stack.pop();
        proof {
            assert(stack@ =~= old(stack)@);
        }
        let ex = match sub {
            Result::Err(e) => {
                return Result::Err(e);
            },
            Result::Ok(ex) => ex,
        };
        let mut facade = ex.named;
        let facade_default = ex.default;
        let ghost fdefv: Option<EntityView> = match facade_default {
            Option::Some(ref e) => Option::Some(e@),
            Option::None => Option::None,
        };
        let ghost facade0 = facade@;
        proof {
            assert(ex@ == ExportsView { default: fdefv, named: facade0 });
            assert(group@.1 == group.specifiers@.map_values(|sp: Specifier| sp@));
        }
        apply_group_specs(named_exports, &mut facade, &facade_default, &group.specifiers);
        gi = gi + 1;
    }
    proof {
        assert(gviews.skip(groups@.len() as int) =~= Seq::<
            (Seq<char>, Seq<SpecifierView>),
        >::empty());
    }
    Result::Ok(())
}

/// Extract the export surface of the module at `path`, with `stack` the
/// chain of modules currently being resolved (cycle guard); `path` is its
/// top. The stack is returned as it came.
#[verifier::loop_isolation(false)]
fn extract_at(modules: &ModuleMap, path: &str, stack: &mut Vec<String>) -> (r: Result<
    ModuleExports,
    WalkError,
>)
    requires
        wf_stack(modules@, old(stack)@.map_values(|s: String| s@)),
        old(stack)@.len() > 0,
        old(stack)@.map_values(|s: String| s@).last() == path@,
        modules@.dom().contains(path@),
    ensures
        final(stack)@ == old(stack)@,
        match r {
            Result::Ok(ex) => spec_extract(
                modules@,
                path@,
                old(stack)@.map_values(|s: String| s@),
            ) == Result::<ExportsView, WalkErrorView>::Ok(ex@),
            Result::Err(e) => spec_extract(
                modules@,
                path@,
                old(stack)@.map_values(|s: String| s@),
            ) == Result::<ExportsView, WalkErrorView>::Err(e@),
        },
    decreases modules@.dom().len() - old(stack)@.len(), 2int, 0int,
{
    let ghost m = modules@;
    let ghost sview = old(stack)@.map_values(|s: String| s@);
    modules.correspond();
    let module = match modules.get(path) {
        Option::Some(mm) => mm,
        Option::None => {
            proof {
                assert(false);
            }
            return Result::Err(WalkError::ImportNotFound(String::from_str(path)));
        },
    };
    proof {
        assert(module@ == m[path@]);
    }
    let ghost iv = spec_classify(m[path@]);
    let items = get_items_in_module(module);
    let dir = crate::paths::parent_dir(path);
    let ghost dirv = crate::paths::spec_parent(path@);
    let alls = items.alls;
    let default_decl = items.default_decl;
    let default_expr = items.default_expr;
    let res = get_named_export_declarations(items.decls, items.export_decls, items.named);
    let resolved = match res {
        Result::Ok(rn) => rn,
        Result::Err(e) => {
            proof {
                assert(spec_named_resolution(iv.export_decls, iv.named, iv.decls) == Result::<
                    NamedState,
                    WalkErrorView,
                >::Err(e@));
                assert(spec_extract(m, path@, sview) == Result::<
                    ExportsView,
                    WalkErrorView,
                >::Err(e@));
            }
            return Result::Err(e);
        },
    };
    let ghost stview = NamedState {
        internal: resolved.internal@,
        groups: resolved.groups@.map_values(|g: NamedGroup| g@),
        decls: resolved.decls@,
    };
    proof {
        assert(spec_named_resolution(iv.export_decls, iv.named, iv.decls) == Result::<
            NamedState,
            WalkErrorView,
        >::Ok(stview));
    }
    let groups = resolved.groups;
    let default = get_default_export_declaration(&default_decl, &default_expr, resolved.decls);
    let ghost defv = spec_default_resolution(iv.default_decl, iv.default_expr, stview.decls);
    let mut named_exports = resolved.internal;
    let ghost named0 = named_exports@;
    proof {
        assert(iv.alls == alls@.map_values(|s: String| s@));
        assert(stview.internal == named0);
    }
    match resolve_alls_exec(modules, dir.as_str(), &alls, &mut named_exports, stack) {
        Result::Ok(_) => {},
        Result::Err(e) => {
            proof {
                assert(spec_resolve_alls(m, dirv, iv.alls, stview.internal, sview) == Result::<
                    Map<Seq<char>, EntityView>,
                    WalkErrorView,
                >::Err(e@));
                assert(spec_extract(m, path@, sview) == Result::<
                    ExportsView,
                    WalkErrorView,
                >::Err(e@));
            }
            return Result::Err(e);
        },
    }
    let ghost named1 = named_exports@;
    proof {
        assert(spec_resolve_alls(m, dirv, iv.alls, stview.internal, sview) == Result::<
            Map<Seq<char>, EntityView>,
            WalkErrorView,
        >::Ok(named1));
        assert(stview.groups == groups@.map_values(|g: NamedGroup| g@));
    }
    match resolve_groups_exec(modules, dir.as_str(), &groups, &mut named_exports, stack) {
        Result::Ok(_) => {},
        Result::Err(e) => {
            proof {
                assert(spec_resolve_groups(m, dirv, stview.groups, named1, sview) == Result::<
                    Map<Seq<char>, EntityView>,
                    WalkErrorView,
                >::Err(e@));
                assert(spec_extract(m, path@, sview) == Result::<
                    ExportsView,
                    WalkErrorView,
                >::Err(e@));
            }
            return Result::Err(e);
        },
    }
    let out = ModuleExports { default, named: named_exports };
    proof {
        assert(spec_resolve_groups(m, dirv, stview.groups, named1, sview) == Result::<
            Map<Seq<char>, EntityView>,
            WalkErrorView,
        >::Ok(out.named@));
        assert(out@ == ExportsView { default: defv, named: out.named@ });
        assert(spec_extract(m, path@, sview) == Result::<ExportsView, WalkErrorView>::Ok(out@));
    }
    Result::Ok(out)
}

/// Extract the canonical export surface of the module at `path` in the
/// module map: its default slot and its named exports, with re-exports
/// resolved recursively and cycles reported as faults.
pub fn get_exports_in_module(modules: &ModuleMap, path: &str) -> (r: Result<
    ModuleExports,
    WalkError,
>)
    ensures
        match r {
            Result::Ok(ex) => spec_get_exports(modules@, path@) == Result::<
                ExportsView,
                WalkErrorView,
            >::Ok(ex@),
            Result::Err(e) => spec_get_exports(modules@, path@) == Result::<
                ExportsView,
                WalkErrorView,
            >::Err(e@),
        },
{
    modules.correspond();
    if !modules.contains_key(path) {
        return Result::Err(WalkError::ImportNotFound(String::from_str(path)));
    }
    let mut stack: Vec<String> = Vec::new();
    stack.push(String::from_str(path));
    proof {
        assert(stack@.map_values(|s: String| s@) =~= seq![path@]);
        assert(seq![path@].no_duplicates());
        assert(wf_stack(modules@, stack@.map_values(|s: String| s@)));
    }
    extract_at(modules, path, &mut stack)
}

} // verus!
