use vstd::prelude::*;

verus! {

/// Identifies one declared binding: the owning module and the local symbol id
/// within that module's symbol table. Independent of its textual name.
#[derive(Clone, Copy, Debug, PartialEq, Eq, Structural)]
pub struct SymbolRef {
    pub owner: u32,
    pub symbol: u32,
}

/// What an import statement asks for: everything the target offers, or one
/// named binding.
#[derive(Clone, Debug)]
pub enum Specifier {
    Star,
    Literal(String),
}

/// One named binding imported from an external module, bound locally to the
/// symbol reference `imported_as`.
#[derive(Clone, Debug)]
pub struct NamedImport {
    pub imported: Specifier,
    pub imported_as: SymbolRef,
}

/// A configurable output-file-name template.
#[derive(Clone, Debug)]
pub struct FileNameTemplate {
    pub template: String,
}

/// How source maps are emitted; `Hidden` suppresses map computation entirely.
#[derive(Clone, Copy, Debug, PartialEq, Eq, Structural)]
pub enum SourceMapMode {
    Off,
    Inline,
    External,
    Hidden,
}

impl SourceMapMode {
    pub fn is_hidden(&self) -> (r: bool)
        ensures
            r == (self is Hidden),
    {
        match self {
            SourceMapMode::Hidden => true,
            _ => false,
        }
    }
}

/// The output configuration this core consumes.
#[derive(Clone, Debug)]
pub struct OutputOptions {
    pub sourcemap: SourceMapMode,
    pub entry_file_names: FileNameTemplate,
    pub chunk_file_names: FileNameTemplate,
}

} // verus!
