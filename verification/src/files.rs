//! File extensions: the JS/TS source extensions are recognized; everything
//! else marks a file as an asset for diffing purposes.

use vstd::prelude::*;
use crate::paths::spec_ext;
use crate::strutil::str_eq;

verus! {

/// A file's extension, classified. The eight JS/TS source extensions get
/// their own variants; any other extension is `Other`; `NoExt` is a file
/// name without an extension.
pub enum FileExt {
    Js,
    Jsx,
    Cjs,
    Mjs,
    Ts,
    Tsx,
    Cts,
    Mts,
    Other(String),
    NoExt,
}

/// Spec-level mirror of `FileExt` with the extension text as a sequence.
pub enum ExtView {
    Js,
    Jsx,
    Cjs,
    Mjs,
    Ts,
    Tsx,
    Cts,
    Mts,
    Other(Seq<char>),
    NoExt,
}

impl View for FileExt {
    type V = ExtView;

    open spec fn view(&self) -> ExtView {
        match self {
            FileExt::Js => ExtView::Js,
            FileExt::Jsx => ExtView::Jsx,
            FileExt::Cjs => ExtView::Cjs,
            FileExt::Mjs => ExtView::Mjs,
            FileExt::Ts => ExtView::Ts,
            FileExt::Tsx => ExtView::Tsx,
            FileExt::Cts => ExtView::Cts,
            FileExt::Mts => ExtView::Mts,
            FileExt::Other(s) => ExtView::Other(s@),
            FileExt::NoExt => ExtView::NoExt,
        }
    }
}

impl ExtView {
    /// The TypeScript-syntax extensions.
    pub open spec fn is_ts(self) -> bool {
        self is Ts || self is Tsx || self is Cts || self is Mts
    }

    /// An extension outside the JS/TS source set.
    pub open spec fn is_other(self) -> bool {
        self is Other
    }

    /// Any of the eight JS/TS source extensions.
    pub open spec fn is_source(self) -> bool {
        self is Js || self is Jsx || self is Cjs || self is Mjs || self is Ts || self is Tsx
            || self is Cts || self is Mts
    }
}

/// Classification of an extension string into a `FileExt` view.
pub open spec fn ext_view_of(e: Option<Seq<char>>) -> ExtView {
    match e {
        Option::None => ExtView::NoExt,
        Option::Some(x) => if x == "js"@ {
            ExtView::Js
        } else if x == "jsx"@ {
            ExtView::Jsx
        } else if x == "cjs"@ {
            ExtView::Cjs
        } else if x == "mjs"@ {
            ExtView::Mjs
        } else if x == "ts"@ {
            ExtView::Ts
        } else if x == "tsx"@ {
            ExtView::Tsx
        } else if x == "cts"@ {
            ExtView::Cts
        } else if x == "mts"@ {
            ExtView::Mts
        } else {
            ExtView::Other(x)
        },
    }
}

/// The classified extension of a path.
pub open spec fn spec_file_ext(p: Seq<char>) -> ExtView {
    ext_view_of(spec_ext(p))
}

impl FileExt {
    pub fn from(path: &str) -> (r: FileExt)
        ensures
            r@ == spec_file_ext(path@),
    {
        match crate::paths::path_ext(path) {
            Option::None => FileExt::NoExt,
            Option::Some(e) => {
                if str_eq(e, "js") {
                    FileExt::Js
                } else if str_eq(e, "jsx") {
                    FileExt::Jsx
                } else if str_eq(e, "cjs") {
                    FileExt::Cjs
                } else if str_eq(e, "mjs") {
                    FileExt::Mjs
                } else if str_eq(e, "ts") {
                    FileExt::Ts
                } else if str_eq(e, "tsx") {
                    FileExt::Tsx
                } else if str_eq(e, "cts") {
                    FileExt::Cts
                } else if str_eq(e, "mts") {
                    FileExt::Mts
                } else {
                    FileExt::Other(String::from_str(e))
                }
            },
        }
    }

    pub fn is_ts(&self) -> (r: bool)
        ensures
            r == self@.is_ts(),
    {
        matches!(self, FileExt::Ts | FileExt::Tsx | FileExt::Cts | FileExt::Mts)
    }

    pub fn is_other(&self) -> (r: bool)
        ensures
            r == self@.is_other(),
    {
        matches!(self, FileExt::Other(_))
    }

    /// Whether this extension marks a JS/TS source module.
    pub fn is_source(&self) -> (r: bool)
        ensures
            r == self@.is_source(),
    {
        matches!(
            self,
            FileExt::Js | FileExt::Jsx | FileExt::Cjs | FileExt::Mjs | FileExt::Ts | FileExt::Tsx
                | FileExt::Cts | FileExt::Mts
        )
    }

    pub fn to_value(&self) -> (r: &str)
        ensures
            match self@ {
                ExtView::Js => r@ == "js"@,
                ExtView::Jsx => r@ == "jsx"@,
                ExtView::Cjs => r@ == "cjs"@,
                ExtView::Mjs => r@ == "mjs"@,
                ExtView::Ts => r@ == "ts"@,
                ExtView::Tsx => r@ == "tsx"@,
                ExtView::Cts => r@ == "cts"@,
                ExtView::Mts => r@ == "mts"@,
                ExtView::Other(s) => r@ == s,
                ExtView::NoExt => r@ == ""@,
            },
    {
        match self {
            FileExt::Js => "js",
            FileExt::Jsx => "jsx",
            FileExt::Cjs => "cjs",
            FileExt::Mjs => "mjs",
            FileExt::Ts => "ts",
            FileExt::Tsx => "tsx",
            FileExt::Cts => "cts",
            FileExt::Mts => "mts",
            FileExt::Other(other) => other.as_str(),
            FileExt::NoExt => "",
        }
    }
}

} // verus!
