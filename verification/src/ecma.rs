//! The module syntax model the export extractor consumes: top-level items
//! of an ECMAScript/TypeScript module, reduced to exactly what export
//! analysis reads (declaration names, export statements, re-export
//! specifiers). The parser that produces it is an external collaborator.

use vstd::prelude::*;

verus! {

/// A top-level declaration, reduced to the names it binds.
pub enum DeclKind {
    /// `var`/`let`/`const` with its declarator names in order (the last one
    /// names the statement for export purposes).
    Var(Vec<String>),
    Class(String),
    Func(String),
    /// A TypeScript-only declaration (`type`, `interface`, `enum`,
    /// `module`/`namespace`): a placeholder that projects an empty name.
    TsOther,
    /// A declaration form export analysis does not support.
    Unsupported,
}

/// What `export default` declares.
pub enum DefaultDeclKind {
    Func(Option<String>),
    Class(Option<String>),
    TsInterface,
}

/// One specifier of a named export statement.
pub enum Specifier {
    /// `orig` or `orig as exported`.
    Named { orig: String, exported: Option<String> },
    /// `* as name`.
    Namespace(String),
    /// A bare default re-export specifier.
    Default,
}

/// One top-level module item, as the export extractor sees it.
pub enum ModuleItem {
    /// A plain statement that is a declaration.
    Decl(DeclKind),
    /// `export var|class|function ...`.
    ExportDecl(DeclKind),
    /// `export default function|class|interface ...`.
    ExportDefaultDecl(DefaultDeclKind),
    /// `export default <expr>`: `Some(name)` when the expression is an
    /// identifier, else `None`.
    ExportDefaultExpr(Option<String>),
    /// `export * from "src"`.
    ExportAll(String),
    /// `export { ... }` or `export { ... } from "src"`.
    ExportNamed { src: Option<String>, specifiers: Vec<Specifier> },
    /// Anything else (imports, plain statements).
    Other,
}

/// A parsed module: its top-level items in source order.
pub struct ModuleAst {
    pub body: Vec<ModuleItem>,
}

/// An exported entity: the declaration backing an export, reduced to its
/// kind and stable name.
pub enum EntityDeclaration {
    Var(String),
    Class(String),
    Func(String),
    Other(String),
}

// ---------------------------------------------------------------------------
// Spec-level mirrors.
// ---------------------------------------------------------------------------

pub enum DeclView {
    Var(Seq<Seq<char>>),
    Class(Seq<char>),
    Func(Seq<char>),
    TsOther,
    Unsupported,
}

pub enum DefaultDeclView {
    Func(Option<Seq<char>>),
    Class(Option<Seq<char>>),
    TsInterface,
}

pub enum SpecifierView {
    Named { orig: Seq<char>, exported: Option<Seq<char>> },
    Namespace(Seq<char>),
    Default,
}

pub enum ItemView {
    Decl(DeclView),
    ExportDecl(DeclView),
    ExportDefaultDecl(DefaultDeclView),
    ExportDefaultExpr(Option<Seq<char>>),
    ExportAll(Seq<char>),
    ExportNamed { src: Option<Seq<char>>, specifiers: Seq<SpecifierView> },
    Other,
}

pub enum EntityView {
    Var(Seq<char>),
    Class(Seq<char>),
    Func(Seq<char>),
    Other(Seq<char>),
}

impl View for DeclKind {
    type V = DeclView;

    open spec fn view(&self) -> DeclView {
        match self {
            DeclKind::Var(names) => DeclView::Var(names@.map_values(|s: String| s@)),
            DeclKind::Class(n) => DeclView::Class(n@),
            DeclKind::Func(n) => DeclView::Func(n@),
            DeclKind::TsOther => DeclView::TsOther,
            DeclKind::Unsupported => DeclView::Unsupported,
        }
    }
}

impl View for DefaultDeclKind {
    type V = DefaultDeclView;

    open spec fn view(&self) -> DefaultDeclView {
        match self {
            DefaultDeclKind::Func(n) => DefaultDeclView::Func(match n {
                Option::Some(s) => Option::Some(s@),
                Option::None => Option::None,
            }),
            DefaultDeclKind::Class(n) => DefaultDeclView::Class(match n {
                Option::Some(s) => Option::Some(s@),
                Option::None => Option::None,
            }),
            DefaultDeclKind::TsInterface => DefaultDeclView::TsInterface,
        }
    }
}

impl View for Specifier {
    type V = SpecifierView;

    open spec fn view(&self) -> SpecifierView {
        match self {
            Specifier::Named { orig, exported } => SpecifierView::Named {
                orig: orig@,
                exported: match exported {
                    Option::Some(s) => Option::Some(s@),
                    Option::None => Option::None,
                },
            },
            Specifier::Namespace(n) => SpecifierView::Namespace(n@),
            Specifier::Default => SpecifierView::Default,
        }
    }
}

impl View for ModuleItem {
    type V = ItemView;

    open spec fn view(&self) -> ItemView {
        match self {
            ModuleItem::Decl(d) => ItemView::Decl(d@),
            ModuleItem::ExportDecl(d) => ItemView::ExportDecl(d@),
            ModuleItem::ExportDefaultDecl(d) => ItemView::ExportDefaultDecl(d@),
            ModuleItem::ExportDefaultExpr(e) => ItemView::ExportDefaultExpr(
                match e {
                    Option::Some(s) => Option::Some(s@),
                    Option::None => Option::None,
                },
            ),
            ModuleItem::ExportAll(src) => ItemView::ExportAll(src@),
            ModuleItem::ExportNamed { src, specifiers } => ItemView::ExportNamed {
                src: match src {
                    Option::Some(s) => Option::Some(s@),
                    Option::None => Option::None,
                },
                specifiers: specifiers@.map_values(|sp: Specifier| sp@),
            },
            ModuleItem::Other => ItemView::Other,
        }
    }
}

impl View for ModuleAst {
    type V = Seq<ItemView>;

    open spec fn view(&self) -> Seq<ItemView> {
        self.body@.map_values(|it: ModuleItem| it@)
    }
}

impl View for EntityDeclaration {
    type V = EntityView;

    open spec fn view(&self) -> EntityView {
        match self {
            EntityDeclaration::Var(n) => EntityView::Var(n@),
            EntityDeclaration::Class(n) => EntityView::Class(n@),
            EntityDeclaration::Func(n) => EntityView::Func(n@),
            EntityDeclaration::Other(n) => EntityView::Other(n@),
        }
    }
}

impl EntityView {
    /// The stable name an entity projects.
    pub open spec fn spec_name(self) -> Seq<char> {
        match self {
            EntityView::Var(n) => n,
            EntityView::Class(n) => n,
            EntityView::Func(n) => n,
            EntityView::Other(n) => n,
        }
    }
}

impl EntityDeclaration {
    pub fn name(&self) -> (r: &String)
        ensures
            r@ == self@.spec_name(),
    {
        match self {
            EntityDeclaration::Var(name) => name,
            EntityDeclaration::Class(name) => name,
            EntityDeclaration::Func(name) => name,
            EntityDeclaration::Other(name) => name,
        }
    }

    /// A structural copy with the same view.
    pub fn duplicate(&self) -> (r: EntityDeclaration)
        ensures
            r@ == self@,
    {
        match self {
            EntityDeclaration::Var(n) => EntityDeclaration::Var(String::from_str(n.as_str())),
            EntityDeclaration::Class(n) => EntityDeclaration::Class(String::from_str(n.as_str())),
            EntityDeclaration::Func(n) => EntityDeclaration::Func(String::from_str(n.as_str())),
            EntityDeclaration::Other(n) => EntityDeclaration::Other(String::from_str(n.as_str())),
        }
    }
}

/// The entity a local declaration contributes, and the name it is keyed
/// under: the last declarator for `var`, the identifier for classes and
/// functions, an empty-named placeholder for TypeScript-only declarations,
/// nothing for unsupported forms or a declarator-less `var`.
pub open spec fn spec_entity_of_decl(d: DeclView) -> Option<EntityView> {
    match d {
        DeclView::Var(names) => if names.len() > 0 {
            Option::Some(EntityView::Var(names.last()))
        } else {
            Option::None
        },
        DeclView::Class(n) => Option::Some(EntityView::Class(n)),
        DeclView::Func(n) => Option::Some(EntityView::Func(n)),
        DeclView::TsOther => Option::Some(EntityView::Other(Seq::empty())),
        DeclView::Unsupported => Option::None,
    }
}

/// The entity declared by `export default <declaration>`; an anonymous
/// function or class projects an empty name.
pub open spec fn spec_entity_of_default(d: DefaultDeclView) -> EntityView {
    match d {
        DefaultDeclView::Func(n) => EntityView::Func(match n {
            Option::Some(s) => s,
            Option::None => Seq::empty(),
        }),
        DefaultDeclView::Class(n) => EntityView::Class(match n {
            Option::Some(s) => s,
            Option::None => Seq::empty(),
        }),
        DefaultDeclView::TsInterface => EntityView::Other(Seq::empty()),
    }
}

impl DeclKind {
    /// Executable counterpart of `spec_entity_of_decl`.
    pub fn to_entity(&self) -> (r: Option<EntityDeclaration>)
        ensures
            match r {
                Option::Some(e) => spec_entity_of_decl(self@) == Option::Some(e@),
                Option::None => spec_entity_of_decl(self@) is None,
            },
    {
        match self {
            DeclKind::Var(names) => {
                if names.len() > 0 {
                    let last = &names[names.len() - 1];
                    proof {
                        assert(self@->Var_0.last() == last@);
                    }
                    Some(EntityDeclaration::Var(String::from_str(last.as_str())))
                } else {
                    None
                }
            },
            DeclKind::Class(n) => Some(EntityDeclaration::Class(String::from_str(n.as_str()))),
            DeclKind::Func(n) => Some(EntityDeclaration::Func(String::from_str(n.as_str()))),
            DeclKind::TsOther => {
                let s = String::new();
                proof {
                    assert(s@ =~= Seq::<char>::empty());
                }
                Some(EntityDeclaration::Other(s))
            },
            DeclKind::Unsupported => None,
        }
    }
}

impl DefaultDeclKind {
    /// Executable counterpart of `spec_entity_of_default`.
    pub fn to_entity(&self) -> (r: EntityDeclaration)
        ensures
            r@ == spec_entity_of_default(self@),
    {
        match self {
            DefaultDeclKind::Func(n) => EntityDeclaration::Func(
                match n {
                    Option::Some(s) => String::from_str(s.as_str()),
                    Option::None => empty_string(),
                },
            ),
            DefaultDeclKind::Class(n) => EntityDeclaration::Class(
                match n {
                    Option::Some(s) => String::from_str(s.as_str()),
                    Option::None => empty_string(),
                },
            ),
            DefaultDeclKind::TsInterface => EntityDeclaration::Other(empty_string()),
        }
    }
}

pub fn empty_string() -> (r: String)
    ensures
        r@ == Seq::<char>::empty(),
{
    let s = String::new();
    proof {
        assert(s@ =~= Seq::<char>::empty());
    }
    s
}

} // verus!
