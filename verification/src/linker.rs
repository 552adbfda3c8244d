use vstd::prelude::*;

use crate::chunk::{Chunk, CrossChunkImportItem};
use crate::common::{Specifier, SymbolRef};
use crate::names::{assoc_name, lemma_assoc_none, lemma_assoc_push, lemma_assoc_skip, pairs_model};

verus! {

/// Consistency of the cross-chunk wiring: every binding some chunk imports
/// from a sibling is exported by that sibling under the very same alias.
pub open spec fn cross_chunk_consistent(chunks: Seq<Chunk>) -> bool {
    forall|b: int, j: int, k: int|
        #![trigger chunks[b].imports_from_other_chunks@[j].1@[k]]
        0 <= b < chunks.len() && 0 <= j < chunks[b].imports_from_other_chunks@.len() && 0 <= k
            < chunks[b].imports_from_other_chunks@[j].1@.len() ==> {
            let a = chunks[b].imports_from_other_chunks@[j].0 as int;
            let it = chunks[b].imports_from_other_chunks@[j].1@[k];
            &&& 0 <= a < chunks.len()
            &&& (it.export_alias matches Some(Specifier::Literal(al)) && assoc_name(
                pairs_model(chunks[a].exports_to_other_chunks@),
                it.import_ref,
            ) == Some(al@))
        }
}

/// Whether some chunk needs symbol `s` from chunk `a`.
pub open spec fn spec_needed(needs: Seq<Vec<(u32, Vec<SymbolRef>)>>, a: u32, s: SymbolRef) -> bool {
    exists|b: int, j: int, k: int|
        #![trigger needs[b]@[j].1@[k]]
        0 <= b < needs.len() && 0 <= j < needs[b]@.len() && needs[b]@[j].0 == a && 0 <= k
            < needs[b]@[j].1@.len() && needs[b]@[j].1@[k] == s
}

/// A chunk equal to another in everything but the cross-chunk wiring maps.
pub open spec fn same_but_wiring(x: Chunk, y: Chunk) -> bool {
    &&& x.kind == y.kind
    &&& x.modules@ == y.modules@
    &&& x.name == y.name
    &&& x.file_name == y.file_name
    &&& x.canonical_names == y.canonical_names
    &&& x.bits == y.bits
    &&& x.imports_from_external_modules@ == y.imports_from_external_modules@
}

fn assoc_contains(entries: &Vec<(SymbolRef, String)>, r: SymbolRef) -> (found: bool)
    ensures
        found == (assoc_name(pairs_model(entries@), r) is Some),
{
    let n = entries.len();
    let mut i: usize = 0;
    while i < n
        invariant
            i <= n,
            n == entries@.len(),
            forall|j: int| 0 <= j < i ==> (#[trigger] pairs_model(entries@)[j]).0 != r,
        decreases n - i,
    {
        if entries[i].0 == r {
            proof {
                lemma_assoc_skip(pairs_model(entries@), r, i as int);
                assert(pairs_model(entries@).skip(i as int)[0] == pairs_model(entries@)[i as int]);
            }
            return true;
        }
        assert(pairs_model(entries@)[i as int].0 != r);
        i = i + 1;
    }
    proof {
        lemma_assoc_skip(pairs_model(entries@), r, n as int);
        assert(pairs_model(entries@).skip(n as int) =~= Seq::<(SymbolRef, Seq<char>)>::empty());
    }
    false
}

/// What the wiring phase requires of its input: one entry per chunk; group
/// keys in range, never the chunk itself, distinct within one chunk; and every
/// needed symbol named in its declaring chunk.
pub open spec fn needs_wf(chunks: Seq<Chunk>, needs: Seq<Vec<(u32, Vec<SymbolRef>)>>) -> bool {
    &&& needs.len() == chunks.len()
    &&& chunks.len() <= u32::MAX
    &&& forall|b: int, j: int|
        #![trigger needs[b]@[j]]
        0 <= b < needs.len() && 0 <= j < needs[b]@.len() ==> ((needs[b]@[j].0 as int)
            < chunks.len() && needs[b]@[j].0 != b)
    &&& forall|b: int, j1: int, j2: int|
        #![trigger needs[b]@[j1], needs[b]@[j2]]
        0 <= b < needs.len() && 0 <= j1 < j2 < needs[b]@.len() ==> needs[b]@[j1].0
            != needs[b]@[j2].0
    &&& forall|b: int, j: int, k: int|
        #![trigger needs[b]@[j].1@[k]]
        0 <= b < needs.len() && 0 <= j < needs[b]@.len() && 0 <= k < needs[b]@[j].1@.len()
            ==> chunks[needs[b]@[j].0 as int].canonical_names.spec_name(
            needs[b]@[j].1@[k],
        ) is Some
}

/// Establishes the cross-chunk wiring before rendering: chunk `b` imports,
/// from each sibling `a` it needs symbols of, those symbols under the alias
/// the sibling exports them with, and each chunk exports every symbol some
/// sibling needs of it — the alias being the symbol's canonical name in the
/// declaring chunk. Everything else about every chunk is kept unchanged.
pub fn wire_cross_chunk_links(chunks: Vec<Chunk>, needs: &Vec<Vec<(u32, Vec<SymbolRef>)>>) -> (r:
    Vec<Chunk>)
    requires
        needs_wf(chunks@, needs@),
    ensures
        r@.len() == chunks@.len(),
        forall|i: int| 0 <= i < r@.len() ==> same_but_wiring(#[trigger] r@[i], chunks@[i]),
        // the import side, pinned entry by entry
        forall|b: int|
            0 <= b < r@.len() ==> (#[trigger] r@[b].imports_from_other_chunks@).len()
                == needs@[b]@.len(),
        forall|b: int, j: int|
            #![trigger r@[b].imports_from_other_chunks@[j]]
            0 <= b < r@.len() && 0 <= j < needs@[b]@.len() ==> {
                let grp = needs@[b]@[j];
                let e = r@[b].imports_from_other_chunks@[j];
                &&& e.0 == grp.0
                &&& e.1@.len() == grp.1@.len()
                &&& forall|k: int|
                    0 <= k < grp.1@.len() ==> ((#[trigger] e.1@[k]).import_ref == grp.1@[k] && (
                    e.1@[k].export_alias matches Some(Specifier::Literal(al)) && al@
                        == chunks@[grp.0 as int].canonical_names.spec_name(grp.1@[k])->0))
            },
        // the export side: a chunk exports exactly what someone needs of it,
        // under the symbol's canonical name there
        forall|a: int, s: SymbolRef|
            #![trigger assoc_name(pairs_model(r@[a].exports_to_other_chunks@), s)]
            0 <= a < r@.len() ==> assoc_name(pairs_model(r@[a].exports_to_other_chunks@), s) == (
            if spec_needed(needs@, a as u32, s) {
                Some(chunks@[a].canonical_names.spec_name(s)->0)
            } else {
                None::<Seq<char>>
            }),
        forall|a: int, i1: int, i2: int|
            #![trigger r@[a].exports_to_other_chunks@[i1], r@[a].exports_to_other_chunks@[i2]]
            0 <= a < r@.len() && 0 <= i1 < i2 < r@[a].exports_to_other_chunks@.len()
                ==> r@[a].exports_to_other_chunks@[i1].0 != r@[a].exports_to_other_chunks@[i2].0,
        cross_chunk_consistent(r@),
{
    let n = chunks.len();
    // imports of every chunk
    let mut imports_all: Vec<Vec<(u32, Vec<CrossChunkImportItem>)>> = Vec::new();
    let mut b: usize = 0;
    while b < n
        invariant
            b <= n,
            n == chunks@.len(),
            needs_wf(chunks@, needs@),
            imports_all@.len() == b,
            forall|t: int|
                0 <= t < b ==> (#[trigger] imports_all@[t]@).len() == needs@[t]@.len(),
            forall|t: int, j: int|
                #![trigger imports_all@[t]@[j]]
                0 <= t < b && 0 <= j < needs@[t]@.len() ==> {
                    let grp = needs@[t]@[j];
                    let e = imports_all@[t]@[j];
                    &&& e.0 == grp.0
                    &&& e.1@.len() == grp.1@.len()
                    &&& forall|k: int|
                        0 <= k < grp.1@.len() ==> ((#[trigger] e.1@[k]).import_ref == grp.1@[k] && (
                        e.1@[k].export_alias matches Some(Specifier::Literal(al)) && al@
                            == chunks@[grp.0 as int].canonical_names.spec_name(grp.1@[k])->0))
                },
        decreases n - b,
    {
        let groups = &needs[b];
        let ng = groups.len();
        let mut imports_b: Vec<(u32, Vec<CrossChunkImportItem>)> = Vec::new();
        let mut j: usize = 0;
        while j < ng
            invariant
                j <= ng,
                b < n,
                n == chunks@.len(),
                needs_wf(chunks@, needs@),
                groups == &needs@[b as int],
                ng == needs@[b as int]@.len(),
                imports_b@.len() == j,
                forall|t: int|
                    #![trigger imports_b@[t]]
                    0 <= t < j ==> {
                        let grp = needs@[b as int]@[t];
                        let e = imports_b@[t];
                        &&& e.0 == grp.0
                        &&& e.1@.len() == grp.1@.len()
                        &&& forall|k: int|
                            0 <= k < grp.1@.len() ==> ((#[trigger] e.1@[k]).import_ref == grp.1@[k]
                                && (e.1@[k].export_alias matches Some(Specifier::Literal(al)) && al@
                                == chunks@[grp.0 as int].canonical_names.spec_name(grp.1@[k])->0))
                    },
            decreases ng - j,
        {
            let a = groups[j].0;
            let refs = &groups[j].1;
            let nr = refs.len();
            let mut items: Vec<CrossChunkImportItem> = Vec::new();
            let mut k: usize = 0;
            while k < nr
                invariant
                    k <= nr,
                    b < n,
                    j < ng,
                    n == chunks@.len(),
                    needs_wf(chunks@, needs@),
                    groups == &needs@[b as int],
                    ng == needs@[b as int]@.len(),
                    a == needs@[b as int]@[j as int].0,
                    refs == &needs@[b as int]@[j as int].1,
                    nr == needs@[b as int]@[j as int].1@.len(),
                    items@.len() == k,
                    forall|t: int|
                        0 <= t < k ==> ((#[trigger] items@[t]).import_ref == refs@[t] && (
                        items@[t].export_alias matches Some(Specifier::Literal(al)) && al@
                            == chunks@[a as int].canonical_names.spec_name(refs@[t])->0)),
                decreases nr - k,
            {
                let s = refs[k];
                let alias: String = match chunks[a as usize].canonical_names.get(s) {
                    Some(nm) => nm,
                    None => {
                        proof {
                            assert(false);
                        }
                        String::new()
                    },
                };
                items.push(
                    CrossChunkImportItem {
                        export_alias: Some(Specifier::Literal(alias)),
                        import_ref: s,
                    },
                );
                k = k + 1;
            }
            imports_b.push((a, items));
            j = j + 1;
        }
        imports_all.push(imports_b);
        b = b + 1;
    }
    // exports of every chunk
    let mut exports_all: Vec<Vec<(SymbolRef, String)>> = Vec::new();
    let mut a: usize = 0;
    while a < n
        invariant
            a <= n,
            n == chunks@.len(),
            needs_wf(chunks@, needs@),
            exports_all@.len() == a,
            forall|t: int, s: SymbolRef|
                #![trigger assoc_name(pairs_model(exports_all@[t]@), s)]
                0 <= t < a ==> assoc_name(pairs_model(exports_all@[t]@), s) == (if spec_needed(
                    needs@,
                    t as u32,
                    s,
                ) {
                    Some(chunks@[t].canonical_names.spec_name(s)->0)
                } else {
                    None::<Seq<char>>
                }),
            forall|t: int, i1: int, i2: int|
                #![trigger exports_all@[t]@[i1], exports_all@[t]@[i2]]
                0 <= t < a && 0 <= i1 < i2 < exports_all@[t]@.len() ==> exports_all@[t]@[i1].0
                    != exports_all@[t]@[i2].0,
        decreases n - a,
    {
        let mut exports_a: Vec<(SymbolRef, String)> = Vec::new();
        let mut b2: usize = 0;
        proof {
            assert(pairs_model(exports_a@) =~= Seq::<(SymbolRef, Seq<char>)>::empty());
        }
        while b2 < n
            invariant
                b2 <= n,
                a < n,
                n == chunks@.len(),
                n == needs@.len(),
                needs_wf(chunks@, needs@),
                // sound so far: every entry is needed, and carries the canonical name
                forall|s: SymbolRef|
                    #[trigger] assoc_name(pairs_model(exports_a@), s) is Some ==> (spec_needed(
                        needs@,
                        a as u32,
                        s,
                    ) && assoc_name(pairs_model(exports_a@), s) == Some(
                        chunks@[a as int].canonical_names.spec_name(s)->0,
                    )),
                forall|i1: int, i2: int|
                    #![trigger exports_a@[i1], exports_a@[i2]]
                    0 <= i1 < i2 < exports_a@.len() ==> exports_a@[i1].0 != exports_a@[i2].0,
                // complete for the prefix of chunks already scanned
                forall|bb: int, jj: int, kk: int|
                    #![trigger needs@[bb]@[jj].1@[kk]]
                    0 <= bb < b2 && 0 <= jj < needs@[bb]@.len() && needs@[bb]@[jj].0 == a && 0 <= kk
                        < needs@[bb]@[jj].1@.len() ==> assoc_name(
                        pairs_model(exports_a@),
                        needs@[bb]@[jj].1@[kk],
                    ) is Some,
            decreases n - b2,
        {
            let groups = &needs[b2];
            let ng = groups.len();
            let mut j2: usize = 0;
            while j2 < ng
                invariant
                    j2 <= ng,
                    a < n,
                    b2 < n,
                    n == chunks@.len(),
                    n == needs@.len(),
                    needs_wf(chunks@, needs@),
                    groups == &needs@[b2 as int],
                    ng == needs@[b2 as int]@.len(),
                    forall|s: SymbolRef|
                        #[trigger] assoc_name(pairs_model(exports_a@), s) is Some ==> (spec_needed(
                            needs@,
                            a as u32,
                            s,
                        ) && assoc_name(pairs_model(exports_a@), s) == Some(
                            chunks@[a as int].canonical_names.spec_name(s)->0,
                        )),
                    forall|i1: int, i2: int|
                        #![trigger exports_a@[i1], exports_a@[i2]]
                        0 <= i1 < i2 < exports_a@.len() ==> exports_a@[i1].0 != exports_a@[i2].0,
                    forall|bb: int, jj: int, kk: int|
                        #![trigger needs@[bb]@[jj].1@[kk]]
                        0 <= bb < b2 && 0 <= jj < needs@[bb]@.len() && needs@[bb]@[jj].0 == a && 0
                            <= kk < needs@[bb]@[jj].1@.len() ==> assoc_name(
                            pairs_model(exports_a@),
                            needs@[bb]@[jj].1@[kk],
                        ) is Some,
                    forall|jj: int, kk: int|
                        #![trigger needs@[b2 as int]@[jj].1@[kk]]
                        0 <= jj < j2 && needs@[b2 as int]@[jj].0 == a && 0 <= kk
                            < needs@[b2 as int]@[jj].1@.len() ==> assoc_name(
                            pairs_model(exports_a@),
                            needs@[b2 as int]@[jj].1@[kk],
                        ) is Some,
                decreases ng - j2,
            {
                if groups[j2].0 == a as u32 {
                    let refs = &groups[j2].1;
                    let nr = refs.len();
                    let mut k2: usize = 0;
                    while k2 < nr
                        invariant
                            k2 <= nr,
                            a < n,
                            b2 < n,
                            j2 < ng,
                            n == chunks@.len(),
                            n == needs@.len(),
                            needs_wf(chunks@, needs@),
                            groups == &needs@[b2 as int],
                            ng == needs@[b2 as int]@.len(),
                            needs@[b2 as int]@[j2 as int].0 == a,
                            refs == &needs@[b2 as int]@[j2 as int].1,
                            nr == needs@[b2 as int]@[j2 as int].1@.len(),
                            forall|s: SymbolRef|
                                #[trigger] assoc_name(pairs_model(exports_a@), s) is Some ==> (
                                spec_needed(needs@, a as u32, s) && assoc_name(
                                    pairs_model(exports_a@),
                                    s,
                                ) == Some(chunks@[a as int].canonical_names.spec_name(s)->0)),
                            forall|i1: int, i2: int|
                                #![trigger exports_a@[i1], exports_a@[i2]]
                                0 <= i1 < i2 < exports_a@.len() ==> exports_a@[i1].0
                                    != exports_a@[i2].0,
                            forall|bb: int, jj: int, kk: int|
                                #![trigger needs@[bb]@[jj].1@[kk]]
                                0 <= bb < b2 && 0 <= jj < needs@[bb]@.len() && needs@[bb]@[jj].0
                                    == a && 0 <= kk < needs@[bb]@[jj].1@.len() ==> assoc_name(
                                    pairs_model(exports_a@),
                                    needs@[bb]@[jj].1@[kk],
                                ) is Some,
                            forall|jj: int, kk: int|
                                #![trigger needs@[b2 as int]@[jj].1@[kk]]
                                0 <= jj < j2 && needs@[b2 as int]@[jj].0 == a && 0 <= kk
                                    < needs@[b2 as int]@[jj].1@.len() ==> assoc_name(
                                    pairs_model(exports_a@),
                                    needs@[b2 as int]@[jj].1@[kk],
                                ) is Some,
                            forall|kk: int|
                                0 <= kk < k2 ==> assoc_name(
                                    pairs_model(exports_a@),
                                    #[trigger] needs@[b2 as int]@[j2 as int].1@[kk],
                                ) is Some,
                        decreases nr - k2,
                    {
                        let s = refs[k2];
                        if !assoc_contains(&exports_a, s) {
                            let nm: String = match chunks[a].canonical_names.get(s) {
                                Some(nm) => nm,
                                None => {
                                    proof {
                                        assert(false);
                                    }
                                    String::new()
                                },
                            };
                            let ghost pre = pairs_model(exports_a@);
                            let ghost pre_entries = exports_a@;
                            exports_a.push((s, nm));
                            proof {
                                assert(pairs_model(exports_a@) =~= pre.push((s, nm@)));
                                lemma_assoc_none(pre, s);
                                assert forall|t: int| 0 <= t < pre_entries.len() implies (
                                #[trigger] pre_entries[t]).0 != s by {
                                    assert(pre[t].0 == pre_entries[t].0);
                                }
                                assert forall|q: SymbolRef| true implies assoc_name(
                                    pairs_model(exports_a@),
                                    q,
                                ) == (if assoc_name(pre, q) is Some {
                                    assoc_name(pre, q)
                                } else if q == s {
                                    Some(nm@)
                                } else {
                                    None::<Seq<char>>
                                }) by {
                                    lemma_assoc_push(pre, q, s, nm@);
                                }
                                assert(spec_needed(needs@, a as u32, s));
                            }
                        }
                        k2 = k2 + 1;
                    }
                }
                j2 = j2 + 1;
            }
            b2 = b2 + 1;
        }
        proof {
            // completeness over all chunks pins the map exactly
            assert forall|s: SymbolRef| true implies #[trigger] assoc_name(
                pairs_model(exports_a@),
                s,
            ) == (if spec_needed(needs@, a as u32, s) {
                Some(chunks@[a as int].canonical_names.spec_name(s)->0)
            } else {
                None::<Seq<char>>
            }) by {
                if spec_needed(needs@, a as u32, s) {
                    let (bb, jj, kk) = choose|bb: int, jj: int, kk: int|
                        #![trigger needs@[bb]@[jj].1@[kk]]
                        0 <= bb < needs@.len() && 0 <= jj < needs@[bb]@.len() && needs@[bb]@[jj].0
                            == a as u32 && 0 <= kk < needs@[bb]@[jj].1@.len()
                            && needs@[bb]@[jj].1@[kk] == s;
                    assert(assoc_name(pairs_model(exports_a@), needs@[bb]@[jj].1@[kk]) is Some);
                }
            }
        }
        exports_all.push(exports_a);
        a = a + 1;
    }
    // reassemble: each chunk keeps everything but receives its wiring
    let ghost chunks0 = chunks@;
    let ghost imports0 = imports_all@;
    let ghost exports0 = exports_all@;
    let mut chunks = chunks;
    let mut out: Vec<Chunk> = Vec::new();
    let mut i: usize = 0;
    while i < n
        invariant
            i <= n,
            n == chunks0.len(),
            imports0.len() == n,
            exports0.len() == n,
            chunks@ == chunks0.skip(i as int),
            imports_all@ == imports0.skip(i as int),
            exports_all@ == exports0.skip(i as int),
            out@.len() == i,
            forall|t: int|
                0 <= t < i ==> (same_but_wiring(#[trigger] out@[t], chunks0[t])
                    && out@[t].imports_from_other_chunks@ == imports0[t]@
                    && out@[t].exports_to_other_chunks@ == exports0[t]@),
        decreases n - i,
    {
        proof {
            assert(chunks0.skip(i as int)[0] == chunks0[i as int]);
            assert(imports0.skip(i as int)[0] == imports0[i as int]);
            assert(exports0.skip(i as int)[0] == exports0[i as int]);
        }
        let c = chunks.remove(0);
        let imp = imports_all.remove(0);
        let exp = exports_all.remove(0);
        proof {
            assert(chunks@ =~= chunks0.skip(i + 1));
            assert(imports_all@ =~= imports0.skip(i + 1));
            assert(exports_all@ =~= exports0.skip(i + 1));
        }
        let nc = Chunk {
            kind: c.kind,
            modules: c.modules,
            name: c.name,
            file_name: c.file_name,
            canonical_names: c.canonical_names,
            bits: c.bits,
            imports_from_other_chunks: imp,
            imports_from_external_modules: c.imports_from_external_modules,
            exports_to_other_chunks: exp,
        };
        out.push(nc);
        i = i + 1;
    }
    proof {
        assert forall|bi: int, j: int, k: int|
            #![trigger out@[bi].imports_from_other_chunks@[j].1@[k]]
            0 <= bi < out@.len() && 0 <= j < out@[bi].imports_from_other_chunks@.len() && 0 <= k
                < out@[bi].imports_from_other_chunks@[j].1@.len() implies {
            let aa = out@[bi].imports_from_other_chunks@[j].0 as int;
            let it = out@[bi].imports_from_other_chunks@[j].1@[k];
            &&& 0 <= aa < out@.len()
            &&& (it.export_alias matches Some(Specifier::Literal(al)) && assoc_name(
                pairs_model(out@[aa].exports_to_other_chunks@),
                it.import_ref,
            ) == Some(al@))
        } by {
            let grp = needs@[bi]@[j];
            let it = out@[bi].imports_from_other_chunks@[j].1@[k];
            assert(it.import_ref == grp.1@[k]);
            assert(spec_needed(needs@, grp.0, grp.1@[k]));
        }
    }
    out
}

} // verus!
