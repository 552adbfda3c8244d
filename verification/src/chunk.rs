use vstd::prelude::*;

use crate::bitset::BitSet;
use crate::common::{FileNameTemplate, NamedImport, OutputOptions, Specifier, SymbolRef};
use crate::errors::BuildError;
use crate::module::{
    module_render_post, parts_covered, render_module, spec_render_parts, LinkStageOutput, Module,
    ModuleRenderOutput, RenderedModule,
};
use crate::names::{strs, CanonicalNames};
use crate::sourcemap::{
    chain_ok, collapse_model, concat_model, concat_sourcemaps, join_texts, lift_pieces,
    piece_texts, SourceMap, Token,
};
use crate::text::join_lines;

use rayon::iter::{IntoParallelRefIterator, ParallelIterator};

verus! {

/// One binding a chunk imports from a sibling chunk: the alias the sibling
/// exports it under, and the symbol reference it binds to locally.
pub struct CrossChunkImportItem {
    pub export_alias: Option<Specifier>,
    pub import_ref: SymbolRef,
}

/// What a chunk is rooted at: a user entry or dynamic-import boundary (`bit`
/// is its index in the global entry-point enumeration), or code shared across
/// several entry points.
pub enum ChunkKind {
    EntryPoint { is_user_defined: bool, bit: u32, module: u32 },
    Common,
}

impl Default for ChunkKind {
    fn default() -> (r: Self)
        ensures
            r is Common,
    {
        ChunkKind::Common
    }
}

/// A render-time output unit: an ordered list of module ids (the emission
/// order), a collision-free naming map, the cross-chunk import/export wiring,
/// and metadata.
pub struct Chunk {
    pub kind: ChunkKind,
    pub modules: Vec<u32>,
    pub name: Option<String>,
    pub file_name: Option<String>,
    pub canonical_names: CanonicalNames,
    pub bits: BitSet,
    pub imports_from_other_chunks: Vec<(u32, Vec<CrossChunkImportItem>)>,
    pub imports_from_external_modules: Vec<(u32, Vec<NamedImport>)>,
    // meaningless if the chunk is an entrypoint
    pub exports_to_other_chunks: Vec<(SymbolRef, String)>,
}

/// The full set of chunks; read-only during rendering, to look up sibling
/// chunks' file names.
pub struct ChunkGraph {
    pub chunks: Vec<Chunk>,
}

/// A comma-separated list.
pub open spec fn spec_comma_join(items: Seq<Seq<char>>) -> Seq<char>
    decreases items.len(),
{
    if items.len() == 0 {
        Seq::empty()
    } else if items.len() == 1 {
        items[0]
    } else {
        spec_comma_join(items.drop_last()) + ", "@ + items.last()
    }
}

/// The binding text of one import from a sibling chunk.
pub open spec fn spec_binding_cross(it: CrossChunkImportItem, cn: CanonicalNames) -> Seq<char> {
    match it.export_alias {
        None => cn.spec_name(it.import_ref)->0,
        Some(Specifier::Star) => "* as "@ + cn.spec_name(it.import_ref)->0,
        Some(Specifier::Literal(a)) => a@ + " as "@ + cn.spec_name(it.import_ref)->0,
    }
}

/// The binding text of one import from an external module.
pub open spec fn spec_binding_external(imp: NamedImport, cn: CanonicalNames) -> Seq<char> {
    match imp.imported {
        Specifier::Star => "* as "@ + cn.spec_name(imp.imported_as)->0,
        Specifier::Literal(a) => a@ + " as "@ + cn.spec_name(imp.imported_as)->0,
    }
}

/// One import statement.
pub open spec fn spec_import_line(bindings: Seq<Seq<char>>, path: Seq<char>) -> Seq<char> {
    "import { "@ + spec_comma_join(bindings) + " } from \""@ + path + "\";\n"@
}

/// The import statements for the sibling chunks, one per distinct sibling, in
/// the stored (deterministic) order.
pub open spec fn spec_cross_lines(
    entries: Seq<(u32, Vec<CrossChunkImportItem>)>,
    cn: CanonicalNames,
    cg: ChunkGraph,
) -> Seq<char>
    decreases entries.len(),
{
    if entries.len() == 0 {
        Seq::empty()
    } else {
        spec_cross_lines(entries.drop_last(), cn, cg) + spec_import_line(
            entries.last().1@.map_values(|it: CrossChunkImportItem| spec_binding_cross(it, cn)),
            "./"@ + cg.chunks@[entries.last().0 as int].file_name->0@,
        )
    }
}

/// The import statements for the external modules, in the stored order.
pub open spec fn spec_external_lines(
    entries: Seq<(u32, Vec<NamedImport>)>,
    cn: CanonicalNames,
    g: LinkStageOutput,
) -> Seq<char>
    decreases entries.len(),
{
    if entries.len() == 0 {
        Seq::empty()
    } else {
        spec_external_lines(entries.drop_last(), cn, g) + spec_import_line(
            entries.last().1@.map_values(|imp: NamedImport| spec_binding_external(imp, cn)),
            (g.modules@[entries.last().0 as int]->External_0).path@,
        )
    }
}

/// The chunk's whole import preamble: sibling-chunk imports, then external
/// imports.
pub open spec fn spec_imports_text(c: Chunk, g: LinkStageOutput, cg: ChunkGraph) -> Seq<char> {
    spec_cross_lines(c.imports_from_other_chunks@, c.canonical_names, cg) + spec_external_lines(
        c.imports_from_external_modules@,
        c.canonical_names,
        g,
    )
}

/// Whether the chunk emits an export footer: entry-point chunks never do, and
/// an empty export map emits none.
pub open spec fn spec_has_exports(c: Chunk) -> bool {
    !(c.kind is EntryPoint) && c.exports_to_other_chunks@.len() > 0
}

/// The export footer: every cross-chunk export, local name bound to its alias.
pub open spec fn spec_exports_text(c: Chunk) -> Seq<char> {
    "export { "@ + spec_comma_join(
        c.exports_to_other_chunks@.map_values(
            |e: (SymbolRef, String)| c.canonical_names.spec_name(e.0)->0 + " as "@ + e.1@,
        ),
    ) + " };"@
}

/// What rendering requires of a chunk against its graphs: module ids in range
/// with sources that fit the size report, the naming map covering every
/// reference the chunk renders, sibling chunks named, and external-import ids
/// naming external modules.
pub open spec fn chunk_wf(c: Chunk, g: LinkStageOutput, cg: ChunkGraph) -> bool {
    &&& g.wf()
    &&& forall|i: int|
        0 <= i < c.modules@.len() ==> (#[trigger] c.modules@[i] as int) < g.modules@.len()
    &&& forall|i: int|
        0 <= i < c.modules@.len() ==> (g.modules@[#[trigger] c.modules@[i] as int] matches
        Module::Normal(m) ==> m.source@.len() <= u32::MAX)
    &&& forall|i: int|
        0 <= i < c.modules@.len() ==> parts_covered(
            g.ast_table@[#[trigger] c.modules@[i] as int]@,
            c.canonical_names,
        )
    &&& forall|j: int|
        0 <= j < c.imports_from_other_chunks@.len() ==> {
            let e = #[trigger] c.imports_from_other_chunks@[j];
            &&& (e.0 as int) < cg.chunks@.len()
            &&& cg.chunks@[e.0 as int].file_name is Some
            &&& forall|k: int|
                0 <= k < e.1@.len() ==> c.canonical_names.spec_name(
                    (#[trigger] e.1@[k]).import_ref,
                ) is Some
        }
    &&& forall|j: int|
        0 <= j < c.imports_from_external_modules@.len() ==> {
            let e = #[trigger] c.imports_from_external_modules@[j];
            &&& (e.0 as int) < g.modules@.len()
            &&& g.modules@[e.0 as int] is External
            &&& forall|k: int|
                0 <= k < e.1@.len() ==> c.canonical_names.spec_name(
                    (#[trigger] e.1@[k]).imported_as,
                ) is Some
        }
    &&& forall|j: int|
        0 <= j < c.exports_to_other_chunks@.len() ==> c.canonical_names.spec_name(
            (#[trigger] c.exports_to_other_chunks@[j]).0,
        ) is Some
}

impl Chunk {
    /// A fresh chunk with the given metadata and no naming or wiring yet.
    pub fn new(name: Option<String>, bits: BitSet, modules: Vec<u32>, kind: ChunkKind) -> (r: Self)
        ensures
            r.kind == kind,
            r.modules@ == modules@,
            r.name == name,
            r.bits == bits,
            r.file_name is None,
            r.canonical_names.wf(),
            r.canonical_names.model() == Seq::<(SymbolRef, Seq<char>)>::empty(),
            r.imports_from_other_chunks@.len() == 0,
            r.imports_from_external_modules@.len() == 0,
            r.exports_to_other_chunks@.len() == 0,
    {
        Chunk {
            kind,
            modules,
            name,
            file_name: None,
            canonical_names: CanonicalNames::empty(),
            bits,
            imports_from_other_chunks: Vec::new(),
            imports_from_external_modules: Vec::new(),
            exports_to_other_chunks: Vec::new(),
        }
    }

    /// Whether the chunk is rooted at an entry point.
    pub fn is_entry_point(&self) -> (r: bool)
        ensures
            r == (self.kind is EntryPoint),
    {
        match self.kind {
            ChunkKind::EntryPoint { .. } => true,
            ChunkKind::Common => false,
        }
    }

    /// The file-name template this chunk is named from: the entry-file-name
    /// template for a user-defined entry chunk, the chunk-file-name template
    /// for every other chunk.
    pub fn file_name_template<'a>(&self, output_options: &'a OutputOptions) -> (r:
        &'a FileNameTemplate)
        ensures
            (self.kind matches ChunkKind::EntryPoint { is_user_defined, .. }
                && is_user_defined) ==> r == &output_options.entry_file_names,
            !(self.kind matches ChunkKind::EntryPoint { is_user_defined, .. }
                && is_user_defined) ==> r == &output_options.chunk_file_names,
    {
        match self.kind {
            ChunkKind::EntryPoint { is_user_defined: true, .. } => &output_options.entry_file_names,
            _ => &output_options.chunk_file_names,
        }
    }
}

/// Appends one import statement to the preamble.
fn append_import_line(out: &mut String, bindings: &Vec<String>, path: &str)
    ensures
        final(out)@ == old(out)@ + spec_import_line(strs(bindings@), path@),
{
    proof {
        reveal_strlit("import { ");
        reveal_strlit(", ");
        reveal_strlit(" } from \"");
        reveal_strlit("\";\n");
    }
    out.append("import { ");
    let n = bindings.len();
    let mut j: usize = 0;
    proof {
        assert(spec_comma_join(strs(bindings@).take(0)) =~= Seq::<char>::empty());
    }
    while j < n
        invariant
            j <= n,
            n == bindings@.len(),
            out@ == old(out)@ + "import { "@ + spec_comma_join(strs(bindings@).take(j as int)),
        decreases n - j,
    {
        if j > 0 {
            out.append(", ");
        }
        out.append(bindings[j].as_str());
        proof {
            reveal_strlit(", ");
            assert(strs(bindings@).take(j + 1).drop_last() =~= strs(bindings@).take(j as int));
            assert(strs(bindings@).take(j + 1).last() == bindings@[j as int]@);
            if j == 0 {
                assert(spec_comma_join(strs(bindings@).take(1)) == strs(bindings@).take(1)[0]);
            }
        }
        j = j + 1;
    }
    proof {
        assert(strs(bindings@).take(n as int) =~= strs(bindings@));
    }
    out.append(" } from \"");
    out.append(path);
    out.append("\";\n");
}

impl Chunk {
    /// Renders the import preamble: one import statement per distinct sibling
    /// chunk, then one per external module, in the stored orders — stable and
    /// independent of any hashing.
    pub fn render_imports_for_esm(&self, g: &LinkStageOutput, cg: &ChunkGraph) -> (r: String)
        requires
            chunk_wf(*self, *g, *cg),
        ensures
            r@ == spec_imports_text(*self, *g, *cg),
    {
        let cn = &self.canonical_names;
        let mut out = String::new();
        let ne = self.imports_from_other_chunks.len();
        let mut e: usize = 0;
        proof {
            assert(self.imports_from_other_chunks@.take(0)
                =~= Seq::<(u32, Vec<CrossChunkImportItem>)>::empty());
        }
        while e < ne
            invariant
                e <= ne,
                ne == self.imports_from_other_chunks@.len(),
                chunk_wf(*self, *g, *cg),
                cn == &self.canonical_names,
                out@ == spec_cross_lines(
                    self.imports_from_other_chunks@.take(e as int),
                    self.canonical_names,
                    *cg,
                ),
            decreases ne - e,
        {
            let entry = &self.imports_from_other_chunks[e];
            let ghost f = |it: CrossChunkImportItem| spec_binding_cross(it, self.canonical_names);
            let nk = entry.1.len();
            let mut bindings: Vec<String> = Vec::new();
            let mut k: usize = 0;
            proof {
                assert(strs(bindings@) =~= entry.1@.take(0).map_values(f));
            }
            while k < nk
                invariant
                    k <= nk,
                    nk == entry.1@.len(),
                    chunk_wf(*self, *g, *cg),
                    cn == &self.canonical_names,
                    entry == &self.imports_from_other_chunks@[e as int],
                    e < self.imports_from_other_chunks@.len(),
                    f == (|it: CrossChunkImportItem| spec_binding_cross(it, self.canonical_names)),
                    strs(bindings@) == entry.1@.take(k as int).map_values(f),
                decreases nk - k,
            {
                let it = &entry.1[k];
                let local: String = match cn.get(it.import_ref) {
                    Some(n) => n,
                    None => {
                        proof {
                            assert(false);
                        }
                        String::new()
                    },
                };
                let b: String = match &it.export_alias {
                    None => local,
                    Some(Specifier::Star) => {
                        let mut b = "* as ".to_owned();
                        b.append(local.as_str());
                        proof {
                            reveal_strlit("* as ");
                        }
                        b
                    },
                    Some(Specifier::Literal(a)) => {
                        let mut b = a.clone();
                        b.append(" as ");
                        b.append(local.as_str());
                        proof {
                            reveal_strlit(" as ");
                        }
                        b
                    },
                };
                proof {
                    assert(b@ == f(entry.1@[k as int]));
                }
                let ghost pre = bindings@;
                bindings.push(b);
                proof {
                    assert(strs(pre.push(b)) =~= strs(pre).push(b@));
                    assert(entry.1@.take(k + 1).map_values(f) =~= entry.1@.take(
                        k as int,
                    ).map_values(f).push(f(entry.1@[k as int])));
                    assert(strs(bindings@) =~= entry.1@.take(k + 1).map_values(f));
                }
                k = k + 1;
            }
            proof {
                assert(entry.1@.take(nk as int) =~= entry.1@);
            }
            let target = &cg.chunks[entry.0 as usize];
            let fname: &String = match &target.file_name {
                Some(fm) => fm,
                None => {
                    proof {
                        assert(false);
                    }
                    &target.name.as_ref().unwrap()
                },
            };
            let mut path = "./".to_owned();
            path.append(fname.as_str());
            append_import_line(&mut out, &bindings, path.as_str());
            proof {
                reveal_strlit("./");
                assert(path@ == "./"@ + cg.chunks@[entry.0 as int].file_name->0@);
                assert(self.imports_from_other_chunks@.take(e + 1).drop_last()
                    =~= self.imports_from_other_chunks@.take(e as int));
                assert(self.imports_from_other_chunks@.take(e + 1).last()
                    == self.imports_from_other_chunks@[e as int]);
            }
            e = e + 1;
        }
        proof {
            assert(self.imports_from_other_chunks@.take(ne as int)
                =~= self.imports_from_other_chunks@);
        }
        let ghost cross_text = out@;
        let nx = self.imports_from_external_modules.len();
        let mut x: usize = 0;
        proof {
            assert(self.imports_from_external_modules@.take(0)
                =~= Seq::<(u32, Vec<NamedImport>)>::empty());
        }
        while x < nx
            invariant
                x <= nx,
                nx == self.imports_from_external_modules@.len(),
                chunk_wf(*self, *g, *cg),
                cn == &self.canonical_names,
                cross_text == spec_cross_lines(
                    self.imports_from_other_chunks@,
                    self.canonical_names,
                    *cg,
                ),
                out@ == cross_text + spec_external_lines(
                    self.imports_from_external_modules@.take(x as int),
                    self.canonical_names,
                    *g,
                ),
            decreases nx - x,
        {
            let entry = &self.imports_from_external_modules[x];
            let ghost f = |imp: NamedImport| spec_binding_external(imp, self.canonical_names);
            let nk = entry.1.len();
            let mut bindings: Vec<String> = Vec::new();
            let mut k: usize = 0;
            proof {
                assert(strs(bindings@) =~= entry.1@.take(0).map_values(f));
            }
            while k < nk
                invariant
                    k <= nk,
                    nk == entry.1@.len(),
                    chunk_wf(*self, *g, *cg),
                    cn == &self.canonical_names,
                    entry == &self.imports_from_external_modules@[x as int],
                    x < self.imports_from_external_modules@.len(),
                    f == (|imp: NamedImport| spec_binding_external(imp, self.canonical_names)),
                    strs(bindings@) == entry.1@.take(k as int).map_values(f),
                decreases nk - k,
            {
                let imp = &entry.1[k];
                let local: String = match cn.get(imp.imported_as) {
                    Some(n) => n,
                    None => {
                        proof {
                            assert(false);
                        }
                        String::new()
                    },
                };
                let b: String = match &imp.imported {
                    Specifier::Star => {
                        let mut b = "* as ".to_owned();
                        b.append(local.as_str());
                        proof {
                            reveal_strlit("* as ");
                        }
                        b
                    },
                    Specifier::Literal(a) => {
                        let mut b = a.clone();
                        b.append(" as ");
                        b.append(local.as_str());
                        proof {
                            reveal_strlit(" as ");
                        }
                        b
                    },
                };
                proof {
                    assert(b@ == f(entry.1@[k as int]));
                }
                let ghost pre = bindings@;
                bindings.push(b);
                proof {
                    assert(strs(pre.push(b)) =~= strs(pre).push(b@));
                    assert(entry.1@.take(k + 1).map_values(f) =~= entry.1@.take(
                        k as int,
                    ).map_values(f).push(f(entry.1@[k as int])));
                    assert(strs(bindings@) =~= entry.1@.take(k + 1).map_values(f));
                }
                k = k + 1;
            }
            proof {
                assert(entry.1@.take(nk as int) =~= entry.1@);
            }
            let target = &g.modules[entry.0 as usize];
            let tpath: &String = match target {
                Module::External(m) => &m.path,
                Module::Normal(m) => {
                    proof {
                        assert(false);
                    }
                    &m.resource_path
                },
            };
            append_import_line(&mut out, &bindings, tpath.as_str());
            proof {
                assert(self.imports_from_external_modules@.take(x + 1).drop_last()
                    =~= self.imports_from_external_modules@.take(x as int));
                assert(self.imports_from_external_modules@.take(x + 1).last()
                    == self.imports_from_external_modules@[x as int]);
            }
            x = x + 1;
        }
        proof {
            assert(self.imports_from_external_modules@.take(nx as int)
                =~= self.imports_from_external_modules@);
        }
        out
    }

    /// Renders the export footer, or nothing for an entry-point chunk or a
    /// chunk with no cross-chunk exports.
    pub fn render_exports(&self) -> (r: Option<String>)
        requires
            forall|j: int|
                0 <= j < self.exports_to_other_chunks@.len() ==> self.canonical_names.spec_name(
                    (#[trigger] self.exports_to_other_chunks@[j]).0,
                ) is Some,
        ensures
            match r {
                Some(s) => spec_has_exports(*self) && s@ == spec_exports_text(*self),
                None => !spec_has_exports(*self),
            },
    {
        if self.is_entry_point() || self.exports_to_other_chunks.len() == 0 {
            return None;
        }
        let ghost f = |en: (SymbolRef, String)|
            self.canonical_names.spec_name(en.0)->0 + " as "@ + en.1@;
        let n = self.exports_to_other_chunks.len();
        let mut bindings: Vec<String> = Vec::new();
        let mut j: usize = 0;
        proof {
            assert(strs(bindings@) =~= self.exports_to_other_chunks@.take(0).map_values(f));
        }
        while j < n
            invariant
                j <= n,
                n == self.exports_to_other_chunks@.len(),
                forall|t: int|
                    0 <= t < self.exports_to_other_chunks@.len()
                        ==> self.canonical_names.spec_name(
                        (#[trigger] self.exports_to_other_chunks@[t]).0,
                    ) is Some,
                f == (|en: (SymbolRef, String)|
                    self.canonical_names.spec_name(en.0)->0 + " as "@ + en.1@),
                strs(bindings@) == self.exports_to_other_chunks@.take(j as int).map_values(f),
            decreases n - j,
        {
            let en = &self.exports_to_other_chunks[j];
            let local: String = match self.canonical_names.get(en.0) {
                Some(nm) => nm,
                None => {
                    proof {
                        assert(false);
                    }
                    String::new()
                },
            };
            let mut b = local;
            b.append(" as ");
            b.append(en.1.as_str());
            proof {
                reveal_strlit(" as ");
                assert(b@ == f(self.exports_to_other_chunks@[j as int]));
            }
            let ghost pre = bindings@;
            bindings.push(b);
            proof {
                assert(strs(pre.push(b)) =~= strs(pre).push(b@));
                assert(self.exports_to_other_chunks@.take(j + 1).map_values(f)
                    =~= self.exports_to_other_chunks@.take(j as int).map_values(f).push(
                    f(self.exports_to_other_chunks@[j as int]),
                ));
                assert(strs(bindings@) =~= self.exports_to_other_chunks@.take(j + 1).map_values(f));
            }
            j = j + 1;
        }
        proof {
            assert(self.exports_to_other_chunks@.take(n as int) =~= self.exports_to_other_chunks@);
        }
        let mut out = "export { ".to_owned();
        let mut k: usize = 0;
        proof {
            reveal_strlit("export { ");
            assert(spec_comma_join(strs(bindings@).take(0)) =~= Seq::<char>::empty());
        }
        while k < n
            invariant
                k <= n,
                n == bindings@.len(),
                out@ == "export { "@ + spec_comma_join(strs(bindings@).take(k as int)),
            decreases n - k,
        {
            if k > 0 {
                out.append(", ");
            }
            out.append(bindings[k].as_str());
            proof {
                reveal_strlit(", ");
                assert(strs(bindings@).take(k + 1).drop_last() =~= strs(bindings@).take(k as int));
                assert(strs(bindings@).take(k + 1).last() == bindings@[k as int]@);
                if k == 0 {
                    assert(spec_comma_join(strs(bindings@).take(1)) == strs(bindings@).take(1)[0]);
                }
            }
            k = k + 1;
        }
        out.append(" };");
        proof {
            reveal_strlit(" };");
            assert(strs(bindings@).take(n as int) =~= strs(bindings@));
        }
        Some(out)
    }
}

/// The rendered body text of module `id` under the chunk's canonical names.
pub open spec fn spec_module_body(g: LinkStageOutput, cn: CanonicalNames, id: int) -> Seq<char> {
    spec_render_parts(g.ast_table@[id]@, cn)
}

/// Whether module `id` contributes a body piece: external modules contribute
/// none, and a module whose body is empty contributes none.
pub open spec fn spec_piece_exists(g: LinkStageOutput, id: int) -> bool {
    g.modules@[id] is Normal && g.ast_table@[id]@.len() > 0
}

/// The transform-map chain of module `id`.
pub open spec fn spec_module_chain(g: LinkStageOutput, id: int) -> Seq<SourceMap> {
    (g.modules@[id]->Normal_0).sourcemap_chain@
}

/// Whether module `id` aborts the chunk's render: it contributes a body, and
/// its source-map chain cannot be merged.
pub open spec fn spec_module_fails(g: LinkStageOutput, id: int) -> bool {
    &&& g.modules@[id] is Normal
    &&& g.ast_table@[id]@.len() > 0
    &&& !chain_ok(spec_module_chain(g, id))
}

/// Whether any module of the chunk aborts its render.
pub open spec fn spec_chunk_fails(g: LinkStageOutput, mods: Seq<u32>) -> bool {
    exists|i: int| 0 <= i < mods.len() && spec_module_fails(g, (#[trigger] mods[i]) as int)
}

/// The resource path of the first module, in emission order, whose source-map
/// chain fails to merge.
pub open spec fn spec_fail_path(g: LinkStageOutput, mods: Seq<u32>) -> Seq<char>
    decreases mods.len(),
{
    if mods.len() == 0 {
        Seq::empty()
    } else if spec_module_fails(g, mods[0] as int) {
        (g.modules@[mods[0] as int]->Normal_0).resource_path@
    } else {
        spec_fail_path(g, mods.drop_first())
    }
}

proof fn lemma_fail_path_skip(g: LinkStageOutput, mods: Seq<u32>, i: int)
    requires
        0 <= i <= mods.len(),
        forall|t: int| 0 <= t < i ==> !spec_module_fails(g, (#[trigger] mods[t]) as int),
    ensures
        spec_fail_path(g, mods) == spec_fail_path(g, mods.skip(i)),
    decreases i,
{
    if i > 0 {
        lemma_fail_path_skip(g, mods.drop_first(), i - 1);
        assert(mods.drop_first().skip(i - 1) =~= mods.skip(i));
        assert(forall|t: int| 0 <= t < i - 1 ==> (#[trigger] mods.drop_first()[t]) == mods[t + 1]);
    } else {
        assert(mods.skip(0) =~= mods);
    }
}

/// The body pieces the chunk's modules contribute, in emission order; each
/// carries its collapsed transform map.
pub open spec fn spec_module_pieces(g: LinkStageOutput, cn: CanonicalNames, mods: Seq<u32>) -> Seq<
    (Seq<char>, Option<(Seq<Seq<char>>, Seq<Token>)>),
>
    decreases mods.len(),
{
    if mods.len() == 0 {
        Seq::empty()
    } else {
        let prev = spec_module_pieces(g, cn, mods.drop_last());
        let id = mods.last() as int;
        if spec_piece_exists(g, id) {
            prev.push(
                (spec_module_body(g, cn, id), Some(collapse_model(spec_module_chain(g, id)))),
            )
        } else {
            prev
        }
    }
}

/// All pieces of the chunk, in output order: the import preamble, the module
/// bodies in the stored module order, and the export footer where one is due.
pub open spec fn spec_pieces(c: Chunk, g: LinkStageOutput, cg: ChunkGraph) -> Seq<
    (Seq<char>, Option<(Seq<Seq<char>>, Seq<Token>)>),
> {
    seq![
        (
            spec_imports_text(c, g, cg),
            Option::<(Seq<Seq<char>>, Seq<Token>)>::None,
        ),
    ] + spec_module_pieces(g, c.canonical_names, c.modules@) + (if spec_has_exports(c) {
        seq![(spec_exports_text(c), Option::<(Seq<Seq<char>>, Seq<Token>)>::None)]
    } else {
        Seq::empty()
    })
}

/// The ghost pairs of the per-module render-metadata list.
pub open spec fn metas_model(v: Seq<(String, RenderedModule)>) -> Seq<(Seq<char>, RenderedModule)> {
    v.map_values(|p: (String, RenderedModule)| (p.0@, p.1))
}

/// The render metadata of the chunk: one entry per normal module, in emission
/// order, keyed by resource path, with the original and rendered lengths.
pub open spec fn spec_metas(g: LinkStageOutput, cn: CanonicalNames, mods: Seq<u32>) -> Seq<
    (Seq<char>, RenderedModule),
>
    decreases mods.len(),
{
    if mods.len() == 0 {
        Seq::empty()
    } else {
        let prev = spec_metas(g, cn, mods.drop_last());
        let id = mods.last() as int;
        match g.modules@[id] {
            Module::External(_) => prev,
            Module::Normal(m) => prev.push(
                (
                    m.resource_path@,
                    RenderedModule {
                        original_length: m.source@.len() as u32,
                        rendered_length: if g.ast_table@[id]@.len() == 0 {
                            0u32
                        } else {
                            (spec_module_body(g, cn, id).len() % 0x1_0000_0000) as u32
                        },
                    },
                ),
            ),
        }
    }
}

/// Relies on rayon: `par_iter().map(..).collect::<Vec<_>>()` on an indexed
/// parallel iterator hands back exactly the per-element results, re-assembled
/// in input order whatever the completion order; each element is computed by
/// the verified `render_module`, whose contract each result therefore meets.
#[verifier::external_body]
fn par_render_modules(g: &LinkStageOutput, cn: &CanonicalNames, hidden: bool, ids: &Vec<u32>) -> (r:
    Vec<Option<ModuleRenderOutput>>)
    requires
        g.wf(),
        forall|i: int| 0 <= i < ids@.len() ==> ((#[trigger] ids@[i]) as int) < g.modules@.len(),
        forall|i: int|
            0 <= i < ids@.len() ==> parts_covered(g.ast_table@[(#[trigger] ids@[i]) as int]@, *cn),
        forall|i: int|
            0 <= i < ids@.len() ==> (g.modules@[(#[trigger] ids@[i]) as int] matches
            Module::Normal(m) ==> m.source@.len() <= u32::MAX),
    ensures
        r@.len() == ids@.len(),
        forall|i: int|
            0 <= i < ids@.len() ==> module_render_post(
                *g,
                *cn,
                hidden,
                (#[trigger] ids@[i]) as int,
                r@[i],
            ),
{
    ids.par_iter().map(|id| render_module(g, cn, hidden, *id)).collect()
}

impl Chunk {
    /// Renders the chunk: the import preamble, each normal module's body in the
    /// stored order (modules render in parallel, results re-assembled in that
    /// order), and the export footer, joined by line breaks; beside it the
    /// per-module size metadata. With source maps hidden no map is computed;
    /// otherwise the modules' collapsed maps are composed into one, and the
    /// first module whose chain cannot be merged aborts the whole render.
    pub fn render(
        &self,
        graph: &LinkStageOutput,
        chunk_graph: &ChunkGraph,
        output_options: &OutputOptions,
    ) -> (r: Result<((String, Option<SourceMap>), Vec<(String, RenderedModule)>), BuildError>)
        requires
            chunk_wf(*self, *graph, *chunk_graph),
        ensures
            ({
                let pieces = spec_pieces(*self, *graph, *chunk_graph);
                let hidden = output_options.sourcemap is Hidden;
                match r {
                    Ok(out) => {
                        &&& (!hidden ==> !spec_chunk_fails(*graph, self.modules@))
                        &&& out.0.0@ == join_lines(piece_texts(pieces))
                        &&& (hidden ==> out.0.1 is None)
                        &&& (!hidden ==> (out.0.1 matches Some(sm) && strs(sm.sources@)
                            == concat_model(pieces).0 && sm.tokens@ == concat_model(pieces).1))
                        &&& metas_model(out.1@) == spec_metas(
                            *graph,
                            self.canonical_names,
                            self.modules@,
                        )
                    },
                    Err(e) => {
                        &&& !hidden
                        &&& spec_chunk_fails(*graph, self.modules@)
                        &&& (e matches BuildError::SourceMapChain { path } && path@
                            == spec_fail_path(*graph, self.modules@))
                    },
                }
            }),
    {
        let ghost cn = self.canonical_names;
        let ghost mods = self.modules@;
        let hidden = output_options.sourcemap.is_hidden();
        let preamble = self.render_imports_for_esm(graph, chunk_graph);
        let mut outs = par_render_modules(graph, &self.canonical_names, hidden, &self.modules);
        let ghost outs0 = outs@;
        let ghost head = seq![
            (
                spec_imports_text(*self, *graph, *chunk_graph),
                Option::<(Seq<Seq<char>>, Seq<Token>)>::None,
            ),
        ];
        let mut pieces: Vec<(String, Option<SourceMap>)> = Vec::new();
        pieces.push((preamble, None));
        let mut metas: Vec<(String, RenderedModule)> = Vec::new();
        proof {
            assert(lift_pieces(pieces@) =~= head);
            assert(spec_module_pieces(*graph, cn, mods.take(0)) =~= Seq::<
                (Seq<char>, Option<(Seq<Seq<char>>, Seq<Token>)>),
            >::empty());
            assert(metas_model(metas@) =~= spec_metas(*graph, cn, mods.take(0)));
            assert(piece_texts(lift_pieces(pieces@)) =~= piece_texts(
                head + spec_module_pieces(*graph, cn, mods.take(0)),
            ));
        }
        let n = self.modules.len();
        let mut i: usize = 0;
        while i < n
            invariant
                i <= n,
                n == mods.len(),
                mods == self.modules@,
                cn == self.canonical_names,
                chunk_wf(*self, *graph, *chunk_graph),
                hidden == (output_options.sourcemap is Hidden),
                outs0.len() == n,
                outs@ == outs0.skip(i as int),
                forall|t: int|
                    0 <= t < n ==> module_render_post(
                        *graph,
                        cn,
                        hidden,
                        (#[trigger] mods[t]) as int,
                        outs0[t],
                    ),
                !hidden ==> forall|t: int|
                    0 <= t < i ==> !spec_module_fails(*graph, (#[trigger] mods[t]) as int),
                piece_texts(lift_pieces(pieces@)) == piece_texts(
                    head + spec_module_pieces(*graph, cn, mods.take(i as int)),
                ),
                !hidden ==> lift_pieces(pieces@) == head + spec_module_pieces(
                    *graph,
                    cn,
                    mods.take(i as int),
                ),
                metas_model(metas@) == spec_metas(*graph, cn, mods.take(i as int)),
            decreases n - i,
        {
            proof {
                assert(mods.take(i + 1).drop_last() =~= mods.take(i as int));
                assert(mods.take(i + 1).last() == mods[i as int]);
                assert(outs0.skip(i as int)[0] == outs0[i as int]);
            }
            let ghost id = mods[i as int] as int;
            let o_opt = outs.remove(0);
            proof {
                assert(o_opt == outs0[i as int]);
                assert(outs@ =~= outs0.skip(i + 1));
                assert(module_render_post(*graph, cn, hidden, id, o_opt));
            }
            match o_opt {
                None => {
                    proof {
                        assert(graph.modules@[id] is External);
                        assert(spec_module_pieces(*graph, cn, mods.take(i + 1))
                            == spec_module_pieces(*graph, cn, mods.take(i as int)));
                        assert(spec_metas(*graph, cn, mods.take(i + 1)) == spec_metas(
                            *graph,
                            cn,
                            mods.take(i as int),
                        ));
                    }
                },
                Some(o) => {
                    let ModuleRenderOutput { resource_path, meta, content, map } = o;
                    let ghost pre_pieces = pieces@;
                    let ghost pre_metas = metas@;
                    match content {
                        Some(c) => {
                            let smap: Option<SourceMap> = match map {
                                None => None,
                                Some(Ok(sm)) => Some(sm),
                                Some(Err(_)) => {
                                    proof {
                                        assert(spec_module_fails(*graph, id));
                                        assert(spec_chunk_fails(*graph, mods));
                                        lemma_fail_path_skip(*graph, mods, i as int);
                                        assert(mods.skip(i as int)[0] == mods[i as int]);
                                        assert(mods.skip(i as int).len() > 0);
                                        assert(spec_fail_path(*graph, mods) == resource_path@);
                                    }
                                    return Err(
                                        BuildError::SourceMapChain { path: resource_path },
                                    );
                                },
                            };
                            pieces.push((c, smap));
                            proof {
                                assert(spec_piece_exists(*graph, id));
                                assert(piece_texts(lift_pieces(pre_pieces.push((c, smap))))
                                    =~= piece_texts(lift_pieces(pre_pieces)).push(c@));
                                assert(piece_texts(
                                    head + spec_module_pieces(*graph, cn, mods.take(i + 1)),
                                ) =~= piece_texts(
                                    head + spec_module_pieces(*graph, cn, mods.take(i as int)),
                                ).push(spec_module_body(*graph, cn, id)));
                                if !hidden {
                                    assert(lift_pieces(pre_pieces.push((c, smap)))
                                        =~= lift_pieces(pre_pieces).push(
                                        (
                                            c@,
                                            Some(collapse_model(spec_module_chain(*graph, id))),
                                        ),
                                    ));
                                    assert(head + spec_module_pieces(*graph, cn, mods.take(i + 1))
                                        =~= (head + spec_module_pieces(
                                        *graph,
                                        cn,
                                        mods.take(i as int),
                                    )).push(
                                        (
                                            spec_module_body(*graph, cn, id),
                                            Some(collapse_model(spec_module_chain(*graph, id))),
                                        ),
                                    ));
                                }
                            }
                        },
                        None => {
                            proof {
                                assert(!spec_piece_exists(*graph, id));
                                assert(spec_module_pieces(*graph, cn, mods.take(i + 1))
                                    == spec_module_pieces(*graph, cn, mods.take(i as int)));
                            }
                        },
                    }
                    metas.push((resource_path, meta));
                    proof {
                        assert(metas_model(pre_metas.push((resource_path, meta)))
                            =~= metas_model(pre_metas).push((resource_path@, meta)));
                        assert(spec_metas(*graph, cn, mods.take(i + 1)) =~= spec_metas(
                            *graph,
                            cn,
                            mods.take(i as int),
                        ).push((resource_path@, meta)));
                    }
                },
            }
            i = i + 1;
        }
        proof {
            assert(mods.take(n as int) =~= mods);
        }
        match self.render_exports() {
            Some(exports) => {
                let ghost pre_pieces = pieces@;
                pieces.push((exports, None));
                proof {
                    assert(piece_texts(lift_pieces(pre_pieces.push((exports, None))))
                        =~= piece_texts(lift_pieces(pre_pieces)).push(exports@));
                    assert(piece_texts(spec_pieces(*self, *graph, *chunk_graph)) =~= piece_texts(
                        head + spec_module_pieces(*graph, cn, mods),
                    ).push(spec_exports_text(*self)));
                    if !hidden {
                        assert(lift_pieces(pre_pieces.push((exports, None)))
                            =~= lift_pieces(pre_pieces).push(
                            (
                                spec_exports_text(*self),
                                Option::<(Seq<Seq<char>>, Seq<Token>)>::None,
                            ),
                        ));
                        assert(spec_pieces(*self, *graph, *chunk_graph) =~= (head
                            + spec_module_pieces(*graph, cn, mods)).push(
                            (
                                spec_exports_text(*self),
                                Option::<(Seq<Seq<char>>, Seq<Token>)>::None,
                            ),
                        ));
                    }
                }
            },
            None => {
                proof {
                    assert(spec_pieces(*self, *graph, *chunk_graph) =~= head + spec_module_pieces(
                        *graph,
                        cn,
                        mods,
                    ));
                }
            },
        }
        proof {
            assert(piece_texts(lift_pieces(pieces@)) == piece_texts(
                spec_pieces(*self, *graph, *chunk_graph),
            ));
        }
        if hidden {
            let content = join_texts(&pieces);
            Ok(((content, None), metas))
        } else {
            proof {
                assert(lift_pieces(pieces@) == spec_pieces(*self, *graph, *chunk_graph));
            }
            let (content, smap) = concat_sourcemaps(&pieces);
            Ok(((content, Some(smap)), metas))
        }
    }
}

/// Determinism: everything a render yields — the joined text, the composed
/// map and the per-module metadata — is a function of the chunk, the
/// link-stage output and the chunk graph alone (see the contract of
/// `Chunk::render`), so rendering the same chunk of the same graphs twice
/// yields byte-identical results.
pub proof fn lemma_render_deterministic(
    c1: Chunk,
    c2: Chunk,
    g1: LinkStageOutput,
    g2: LinkStageOutput,
    cg1: ChunkGraph,
    cg2: ChunkGraph,
)
    requires
        c1 == c2,
        g1 == g2,
        cg1 == cg2,
    ensures
        spec_pieces(c1, g1, cg1) == spec_pieces(c2, g2, cg2),
        concat_model(spec_pieces(c1, g1, cg1)) == concat_model(spec_pieces(c2, g2, cg2)),
        spec_metas(g1, c1.canonical_names, c1.modules@) == spec_metas(
            g2,
            c2.canonical_names,
            c2.modules@,
        ),
{
}

proof fn lemma_module_pieces_step(g: LinkStageOutput, cn: CanonicalNames, mods: Seq<u32>, t: int)
    requires
        0 <= t < mods.len(),
    ensures
        spec_module_pieces(g, cn, mods.take(t + 1)) == (if spec_piece_exists(g, mods[t] as int) {
            spec_module_pieces(g, cn, mods.take(t)).push(
                (
                    spec_module_body(g, cn, mods[t] as int),
                    Some(collapse_model(spec_module_chain(g, mods[t] as int))),
                ),
            )
        } else {
            spec_module_pieces(g, cn, mods.take(t))
        }),
{
    assert(mods.take(t + 1).drop_last() =~= mods.take(t));
    assert(mods.take(t + 1).last() == mods[t]);
}

proof fn lemma_module_pieces_len_mono(g: LinkStageOutput, cn: CanonicalNames, mods: Seq<u32>, t1: int, t2: int)
    requires
        0 <= t1 <= t2 <= mods.len(),
    ensures
        spec_module_pieces(g, cn, mods.take(t1)).len() <= spec_module_pieces(
            g,
            cn,
            mods.take(t2),
        ).len(),
    decreases t2 - t1,
{
    if t1 < t2 {
        lemma_module_pieces_len_mono(g, cn, mods, t1, t2 - 1);
        lemma_module_pieces_step(g, cn, mods, t2 - 1);
    }
}

proof fn lemma_module_piece_at(g: LinkStageOutput, cn: CanonicalNames, mods: Seq<u32>, i: int, t: int)
    requires
        0 <= i < t <= mods.len(),
        spec_piece_exists(g, mods[i] as int),
    ensures
        ({
            let p = spec_module_pieces(g, cn, mods.take(i)).len() as int;
            &&& p < spec_module_pieces(g, cn, mods.take(t)).len()
            &&& spec_module_pieces(g, cn, mods.take(t))[p].0 == spec_module_body(
                g,
                cn,
                mods[i] as int,
            )
        }),
    decreases t - i,
{
    lemma_module_pieces_step(g, cn, mods, t - 1);
    if t == i + 1 {
    } else {
        lemma_module_piece_at(g, cn, mods, i, t - 1);
    }
}

/// That the bodies of modules `i` and `j` of the chunk stand at offsets `oi`
/// and `oj` of the rendered text, the first wholly before the second.
pub open spec fn bodies_ordered_at(
    c: Chunk,
    g: LinkStageOutput,
    cg: ChunkGraph,
    i: int,
    j: int,
    oi: int,
    oj: int,
) -> bool {
    let content = join_lines(piece_texts(spec_pieces(c, g, cg)));
    let bi = spec_module_body(g, c.canonical_names, c.modules@[i] as int);
    let bj = spec_module_body(g, c.canonical_names, c.modules@[j] as int);
    &&& 0 <= oi
    &&& oi + bi.len() <= oj
    &&& oj + bj.len() <= content.len()
    &&& content.subrange(oi, oi + bi.len()) == bi
    &&& content.subrange(oj, oj + bj.len()) == bj
}

/// Order preservation: in the rendered text of a chunk, the body of an earlier
/// module stands wholly before the body of a later module — a consequence of
/// the piece list following the stored module order and of the join keeping
/// every piece at its offset, whatever order the parallel rendering completed
/// in (see the contract of `Chunk::render`, which pins the content to this
/// very join).
pub proof fn lemma_render_order_preserved(
    c: Chunk,
    g: LinkStageOutput,
    cg: ChunkGraph,
    i: int,
    j: int,
)
    requires
        0 <= i < j < c.modules@.len(),
        spec_piece_exists(g, c.modules@[i] as int),
        spec_piece_exists(g, c.modules@[j] as int),
    ensures
        exists|oi: int, oj: int| #[trigger] bodies_ordered_at(c, g, cg, i, j, oi, oj),
{
    let cn = c.canonical_names;
    let mods = c.modules@;
    let n = mods.len() as int;
    let pieces = spec_pieces(c, g, cg);
    let content = join_lines(piece_texts(pieces));
    let bi = spec_module_body(g, cn, mods[i] as int);
    let bj = spec_module_body(g, cn, mods[j] as int);
    // positions of the two bodies inside the module-piece list
    let pi = spec_module_pieces(g, cn, mods.take(i)).len() as int;
    let pj = spec_module_pieces(g, cn, mods.take(j)).len() as int;
    lemma_module_piece_at(g, cn, mods, i, n);
    lemma_module_piece_at(g, cn, mods, j, n);
    lemma_module_piece_at(g, cn, mods, i, j);
    lemma_module_pieces_len_mono(g, cn, mods, j, n);
    assert(mods.take(n) =~= mods);
    assert(pi < pj);
    let mp = spec_module_pieces(g, cn, mods);
    // the same bodies inside the full piece list, shifted behind the preamble
    assert(pieces[pi + 1].0 == bi && pieces[pj + 1].0 == bj) by {
        assert(pieces[pi + 1] == mp[pi]);
        assert(pieces[pj + 1] == mp[pj]);
    }
    assert(piece_texts(pieces)[pi + 1] == bi);
    assert(piece_texts(pieces)[pj + 1] == bj);
    crate::text::lemma_join_lines_order(piece_texts(pieces), pi + 1);
    crate::text::lemma_join_lines_order(piece_texts(pieces), pj + 1);
    let oi = crate::text::piece_start(piece_texts(pieces), pi + 1);
    let oj = crate::text::piece_start(piece_texts(pieces), pj + 1);
    lemma_piece_start_mono(piece_texts(pieces), pi + 1, pj + 1);
    assert(content.subrange(oi, oi + bi.len()) == bi);
    assert(content.subrange(oj, oj + bj.len()) == bj);
    assert(oi + bi.len() <= oj);
    assert(bodies_ordered_at(c, g, cg, i, j, oi, oj));
}

proof fn lemma_piece_start_mono(texts: Seq<Seq<char>>, p1: int, p2: int)
    requires
        0 <= p1 < p2 < texts.len(),
    ensures
        crate::text::piece_start(texts, p1) + texts[p1].len() < crate::text::piece_start(
            texts,
            p2,
        ),
    decreases p2 - p1,
{
    if p2 == p1 + 1 {
    } else {
        lemma_piece_start_mono(texts, p1, p2 - 1);
        crate::text::lemma_join_lines_order(texts, p2 - 1);
    }
}

} // verus!
