use vstd::prelude::*;

verus! {

/// The failures this core reports: an entry specifier that cannot be found
/// relative to the working directory, an import specifier that cannot be
/// resolved relative to a known importer, and a module whose accumulated
/// source-map chain cannot be merged.
#[derive(Debug, Clone, PartialEq, Eq)]
pub enum BuildError {
    UnresolvedEntry { specifier: String },
    UnresolvedImport { specifier: String, importer: String },
    SourceMapChain { path: String },
}

/// Message text of an unresolved-entry failure for `specifier`.
pub open spec fn unresolved_entry_message(specifier: Seq<char>) -> Seq<char> {
    "Could not resolve entry module \""@ + specifier + "\"."@
}

/// Message text of an unresolved-import failure for `specifier` from `importer`.
pub open spec fn unresolved_import_message(specifier: Seq<char>, importer: Seq<char>) -> Seq<char> {
    "Could not resolve \""@ + specifier + "\" from "@ + importer + "."@
}

/// Message text of a source-map merge failure for the module at `path`.
pub open spec fn sourcemap_chain_message(path: Seq<char>) -> Seq<char> {
    "Could not merge the source-map chain of \""@ + path + "\"."@
}

impl BuildError {
    /// The human-readable message; it names the offending specifier and, for
    /// import failures, the importer's path.
    pub fn message(&self) -> (m: String)
        ensures
            m@ == match self {
                BuildError::UnresolvedEntry { specifier } => unresolved_entry_message(specifier@),
                BuildError::UnresolvedImport { specifier, importer } => unresolved_import_message(
                    specifier@,
                    importer@,
                ),
                BuildError::SourceMapChain { path } => sourcemap_chain_message(path@),
            },
    {
        match self {
            BuildError::UnresolvedEntry { specifier } => {
                let mut m = "Could not resolve entry module \"".to_owned();
                m.append(specifier.as_str());
                m.append("\".");
                m
            },
            BuildError::UnresolvedImport { specifier, importer } => {
                let mut m = "Could not resolve \"".to_owned();
                m.append(specifier.as_str());
                m.append("\" from ");
                m.append(importer.as_str());
                m.append(".");
                m
            },
            BuildError::SourceMapChain { path } => {
                let mut m = "Could not merge the source-map chain of \"".to_owned();
                m.append(path.as_str());
                m.append("\".");
                m
            },
        }
    }
}

} // verus!
