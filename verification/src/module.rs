use vstd::prelude::*;

use crate::common::SymbolRef;
use crate::names::{strs, CanonicalNames};
use crate::sourcemap::{
    chain_ok, collapse_model, collapse_sourcemaps, SourceMap, SourceMapError,
};

verus! {

/// One already-parsed piece of a module body: literal text, or a reference to
/// a declared binding that rendering replaces with the chunk's canonical name.
pub enum Part {
    Text(String),
    Ref(SymbolRef),
}

/// A module of the bundle itself: a resource path, source text, the chain of
/// source maps accumulated from upstream transforms, and a body in the shared
/// syntax-tree table. Rendered to text by this core.
pub struct NormalModule {
    pub id: u32,
    pub resource_path: String,
    pub source: String,
    pub sourcemap_chain: Vec<SourceMap>,
}

/// An import target outside the bundle: no emitted content, contributes only
/// to import statements.
pub struct ExternalModule {
    pub id: u32,
    pub path: String,
}

pub enum Module {
    Normal(NormalModule),
    External(ExternalModule),
}

/// The immutable snapshot the linking pass hands over: all modules and the
/// shared table of their parsed bodies, both indexed by module id. Consumed
/// read-only by chunk rendering.
pub struct LinkStageOutput {
    pub modules: Vec<Module>,
    pub ast_table: Vec<Vec<Part>>,
}

impl LinkStageOutput {
    pub open spec fn wf(&self) -> bool {
        &&& self.ast_table@.len() == self.modules@.len()
        &&& forall|i: int|
            0 <= i < self.modules@.len() ==> match #[trigger] self.modules@[i] {
                Module::Normal(m) => m.id == i,
                Module::External(m) => m.id == i,
            }
    }
}

/// The text one body piece renders to under the chunk's canonical names.
pub open spec fn spec_part_text(p: Part, cn: CanonicalNames) -> Seq<char> {
    match p {
        Part::Text(s) => s@,
        Part::Ref(r) => cn.spec_name(r)->0,
    }
}

/// Whether the canonical-name map covers every reference of the body.
pub open spec fn parts_covered(parts: Seq<Part>, cn: CanonicalNames) -> bool {
    forall|i: int|
        0 <= i < parts.len() ==> ((#[trigger] parts[i]) matches Part::Ref(r) ==> cn.spec_name(
            r,
        ) is Some)
}

/// A module body rendered under the chunk's canonical names: its pieces in
/// order, every reference replaced by its chunk-unique name.
pub open spec fn spec_render_parts(parts: Seq<Part>, cn: CanonicalNames) -> Seq<char>
    decreases parts.len(),
{
    if parts.len() == 0 {
        Seq::empty()
    } else {
        spec_render_parts(parts.drop_last(), cn) + spec_part_text(parts.last(), cn)
    }
}

/// Renders a module body: every local reference is substituted with its
/// chunk-unique canonical name.
pub fn render_parts(parts: &Vec<Part>, cn: &CanonicalNames) -> (r: String)
    requires
        parts_covered(parts@, *cn),
    ensures
        r@ == spec_render_parts(parts@, *cn),
{
    let n = parts.len();
    let mut r = String::new();
    let mut i: usize = 0;
    proof {
        assert(spec_render_parts(parts@.take(0), *cn) =~= Seq::<char>::empty());
    }
    while i < n
        invariant
            i <= n,
            n == parts@.len(),
            parts_covered(parts@, *cn),
            r@ == spec_render_parts(parts@.take(i as int), *cn),
        decreases n - i,
    {
        proof {
            assert(parts@.take(i + 1).drop_last() =~= parts@.take(i as int));
            assert(parts@.take(i + 1).last() == parts@[i as int]);
        }
        match &parts[i] {
            Part::Text(s) => {
                r.append(s.as_str());
            },
            Part::Ref(rf) => {
                match cn.get(*rf) {
                    Some(name) => {
                        r.append(name.as_str());
                    },
                    None => {
                        proof {
                            assert(false);
                        }
                    },
                }
            },
        }
        i = i + 1;
    }
    proof {
        assert(parts@.take(n as int) =~= parts@);
    }
    r
}

/// Render metadata of one module, for bundle-size reporting.
#[derive(Clone, Copy, Debug, PartialEq, Eq, Structural)]
pub struct RenderedModule {
    pub original_length: u32,
    pub rendered_length: u32,
}

/// What rendering one module of a chunk yields: its path and size metadata,
/// its body text where it has one, and, unless maps are suppressed, the
/// outcome of collapsing its source-map chain.
pub struct ModuleRenderOutput {
    pub resource_path: String,
    pub meta: RenderedModule,
    pub content: Option<String>,
    pub map: Option<Result<SourceMap, SourceMapError>>,
}

/// What rendering module `id` must yield: nothing for an external module; for
/// a normal module its path, exact body text and sizes, and its collapsed map
/// (absent when `hidden`, the collapse failure surfacing otherwise).
pub open spec fn module_render_post(
    g: LinkStageOutput,
    cn: CanonicalNames,
    hidden: bool,
    id: int,
    r: Option<ModuleRenderOutput>,
) -> bool {
    match g.modules@[id] {
        Module::External(_) => r is None,
        Module::Normal(m) => {
            let parts = g.ast_table@[id]@;
            let body = spec_render_parts(parts, cn);
            &&& r is Some
            &&& (r->0).resource_path@ == m.resource_path@
            &&& (r->0).meta.original_length == m.source@.len()
            &&& (if parts.len() == 0 {
                (r->0).content is None && (r->0).meta.rendered_length == 0
            } else {
                (r->0).content matches Some(c) && c@ == body && (r->0).meta.rendered_length == body.len() % 0x1_0000_0000
            })
            &&& (if hidden {
                (r->0).map is None
            } else {
                (r->0).map matches Some(res) && (if chain_ok(m.sourcemap_chain@) {
                    res matches Ok(sm) && strs(sm.sources@) == collapse_model(m.sourcemap_chain@).0
                        && sm.tokens@ == collapse_model(m.sourcemap_chain@).1 && sm.wf()
                } else {
                    res is Err
                })
            })
        },
    }
}

/// Renders one module of a chunk. Read-only with respect to the shared
/// link-stage output, so distinct modules may render concurrently.
pub fn render_module(g: &LinkStageOutput, cn: &CanonicalNames, hidden: bool, id: u32) -> (r: Option<
    ModuleRenderOutput,
>)
    requires
        g.wf(),
        id < g.modules@.len(),
        parts_covered(g.ast_table@[id as int]@, *cn),
        g.modules@[id as int] matches Module::Normal(m) ==> m.source@.len() <= u32::MAX,
    ensures
        module_render_post(*g, *cn, hidden, id as int, r),
{
    match &g.modules[id as usize] {
        Module::External(_) => None,
        Module::Normal(m) => {
            let parts = &g.ast_table[id as usize];
            let content: Option<String> = if parts.len() == 0 {
                None
            } else {
                Some(render_parts(parts, cn))
            };
            let original_length = m.source.as_str().unicode_len() as u32;
            let rendered_length: u32 = match &content {
                None => 0u32,
                Some(c) => {
                    let l = c.as_str().unicode_len();
                    ((l as u64) % 0x1_0000_0000u64) as u32
                },
            };
            let map: Option<Result<SourceMap, SourceMapError>> = if hidden {
                None
            } else {
                Some(collapse_sourcemaps(&m.sourcemap_chain))
            };
            Some(
                ModuleRenderOutput {
                    resource_path: m.resource_path.clone(),
                    meta: RenderedModule { original_length, rendered_length },
                    content,
                    map,
                },
            )
        },
    }
}

} // verus!
