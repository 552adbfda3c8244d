use vstd::prelude::*;

use crate::names::strs;
use crate::text::{join_lines, newline_count, count_newlines};

verus! {

/// One mapping: a generated position and the original position it came from,
/// `src_id` pointing into the map's source list.
#[derive(Clone, Copy, Debug, PartialEq, Eq, Structural)]
pub struct Token {
    pub dst_line: u64,
    pub dst_col: u64,
    pub src_id: u64,
    pub src_line: u64,
    pub src_col: u64,
}

/// A source map: the original source paths and the mappings into them.
#[derive(Debug)]
pub struct SourceMap {
    pub sources: Vec<String>,
    pub tokens: Vec<Token>,
}

/// The failure of merging a module's transform-map chain.
#[derive(Clone, Copy, Debug, PartialEq, Eq, Structural)]
pub struct SourceMapError {}

/// Well-formed: every token points into the source list.
pub open spec fn sm_wf(sources: Seq<Seq<char>>, tokens: Seq<Token>) -> bool {
    forall|i: int| 0 <= i < tokens.len() ==> (#[trigger] tokens[i]).src_id < sources.len()
}

impl SourceMap {
    pub open spec fn wf(&self) -> bool {
        sm_wf(strs(self.sources@), self.tokens@)
    }
}

/// The first token of `tokens` generated at (`line`, `col`).
pub open spec fn lookup_token(tokens: Seq<Token>, line: u64, col: u64) -> Option<Token>
    decreases tokens.len(),
{
    if tokens.len() == 0 {
        None
    } else if tokens[0].dst_line == line && tokens[0].dst_col == col {
        Some(tokens[0])
    } else {
        lookup_token(tokens.drop_first(), line, col)
    }
}

/// Tokens of `next` carried back through `prev`: a token survives where the
/// position it maps to has a mapping in `prev`, and then maps straight to that
/// mapping's original position.
pub open spec fn compose_tokens(prev: Seq<Token>, next: Seq<Token>) -> Seq<Token>
    decreases next.len(),
{
    if next.len() == 0 {
        Seq::empty()
    } else {
        let rest = compose_tokens(prev, next.drop_last());
        let t = next.last();
        match lookup_token(prev, t.src_line, t.src_col) {
            Some(p) => rest.push(
                Token {
                    dst_line: t.dst_line,
                    dst_col: t.dst_col,
                    src_id: p.src_id,
                    src_line: p.src_line,
                    src_col: p.src_col,
                },
            ),
            None => rest,
        }
    }
}

/// The collapse of a module's transform chain into one map: the sources of the
/// first map, and the last map's tokens carried back through all earlier maps.
pub open spec fn collapse_model(chain: Seq<SourceMap>) -> (Seq<Seq<char>>, Seq<Token>)
    decreases chain.len(),
{
    if chain.len() == 0 {
        (Seq::<Seq<char>>::empty(), Seq::<Token>::empty())
    } else if chain.len() == 1 {
        (strs(chain[0].sources@), chain[0].tokens@)
    } else {
        let prev = collapse_model(chain.drop_last());
        (prev.0, compose_tokens(prev.1, chain.last().tokens@))
    }
}

/// A chain can be merged exactly when each of its maps is well formed.
pub open spec fn chain_ok(chain: Seq<SourceMap>) -> bool {
    forall|i: int| 0 <= i < chain.len() ==> (#[trigger] chain[i]).wf()
}

proof fn lemma_lookup_skip(tokens: Seq<Token>, line: u64, col: u64, i: int)
    requires
        0 <= i <= tokens.len(),
        forall|j: int|
            0 <= j < i ==> !((#[trigger] tokens[j]).dst_line == line && tokens[j].dst_col == col),
    ensures
        lookup_token(tokens, line, col) == lookup_token(tokens.skip(i), line, col),
    decreases i,
{
    if i > 0 {
        lemma_lookup_skip(tokens.drop_first(), line, col, i - 1);
        assert(tokens.drop_first().skip(i - 1) =~= tokens.skip(i));
        assert(forall|j: int|
            0 <= j < i - 1 ==> (#[trigger] tokens.drop_first()[j]) == tokens[j + 1]);
    } else {
        assert(tokens.skip(0) =~= tokens);
    }
}

proof fn lemma_lookup_wf(sources: Seq<Seq<char>>, tokens: Seq<Token>, line: u64, col: u64)
    requires
        sm_wf(sources, tokens),
        lookup_token(tokens, line, col) is Some,
    ensures
        lookup_token(tokens, line, col)->0.src_id < sources.len(),
    decreases tokens.len(),
{
    if tokens.len() > 0 && !(tokens[0].dst_line == line && tokens[0].dst_col == col) {
        assert(forall|j: int|
            0 <= j < tokens.drop_first().len() ==> (#[trigger] tokens.drop_first()[j]) == tokens[j
                + 1]);
        lemma_lookup_wf(sources, tokens.drop_first(), line, col);
    }
}

proof fn lemma_compose_wf(sources: Seq<Seq<char>>, prev: Seq<Token>, next: Seq<Token>)
    requires
        sm_wf(sources, prev),
    ensures
        sm_wf(sources, compose_tokens(prev, next)),
    decreases next.len(),
{
    if next.len() > 0 {
        lemma_compose_wf(sources, prev, next.drop_last());
        let t = next.last();
        if lookup_token(prev, t.src_line, t.src_col) is Some {
            lemma_lookup_wf(sources, prev, t.src_line, t.src_col);
        }
    }
}

fn lookup_exec(tokens: &Vec<Token>, line: u64, col: u64) -> (r: Option<Token>)
    ensures
        r == lookup_token(tokens@, line, col),
{
    let n = tokens.len();
    let mut i: usize = 0;
    while i < n
        invariant
            i <= n,
            n == tokens@.len(),
            forall|j: int|
                0 <= j < i ==> !((#[trigger] tokens@[j]).dst_line == line && tokens@[j].dst_col
                    == col),
        decreases n - i,
    {
        let t = tokens[i];
        if t.dst_line == line && t.dst_col == col {
            proof {
                lemma_lookup_skip(tokens@, line, col, i as int);
                assert(tokens@.skip(i as int)[0] == tokens@[i as int]);
            }
            return Some(t);
        }
        i = i + 1;
    }
    proof {
        lemma_lookup_skip(tokens@, line, col, n as int);
        assert(tokens@.skip(n as int) =~= Seq::<Token>::empty());
    }
    None
}

fn compose_exec(prev: &Vec<Token>, next: &Vec<Token>) -> (r: Vec<Token>)
    ensures
        r@ == compose_tokens(prev@, next@),
{
    let n = next.len();
    let mut r: Vec<Token> = Vec::new();
    let mut i: usize = 0;
    proof {
        assert(next@.take(0) =~= Seq::<Token>::empty());
    }
    while i < n
        invariant
            i <= n,
            n == next@.len(),
            r@ == compose_tokens(prev@, next@.take(i as int)),
        decreases n - i,
    {
        let t = next[i];
        proof {
            assert(next@.take(i + 1).drop_last() =~= next@.take(i as int));
            assert(next@.take(i + 1).last() == next@[i as int]);
        }
        match lookup_exec(prev, t.src_line, t.src_col) {
            Some(p) => {
                r.push(
                    Token {
                        dst_line: t.dst_line,
                        dst_col: t.dst_col,
                        src_id: p.src_id,
                        src_line: p.src_line,
                        src_col: p.src_col,
                    },
                );
            },
            None => {},
        }
        i = i + 1;
    }
    proof {
        assert(next@.take(n as int) =~= next@);
    }
    r
}

fn clone_strings(v: &Vec<String>) -> (r: Vec<String>)
    ensures
        strs(r@) == strs(v@),
{
    let n = v.len();
    let mut r: Vec<String> = Vec::new();
    let mut i: usize = 0;
    while i < n
        invariant
            i <= n,
            n == v@.len(),
            r@.len() == i,
            forall|j: int| 0 <= j < i ==> (#[trigger] r@[j])@ == v@[j]@,
        decreases n - i,
    {
        r.push(v[i].clone());
        i = i + 1;
    }
    proof {
        assert(strs(r@) =~= strs(v@));
    }
    r
}

fn clone_tokens(v: &Vec<Token>) -> (r: Vec<Token>)
    ensures
        r@ == v@,
{
    let n = v.len();
    let mut r: Vec<Token> = Vec::new();
    let mut i: usize = 0;
    while i < n
        invariant
            i <= n,
            n == v@.len(),
            r@ == v@.take(i as int),
        decreases n - i,
    {
        r.push(v[i]);
        proof {
            assert(v@.take(i + 1) =~= v@.take(i as int).push(v@[i as int]));
        }
        i = i + 1;
    }
    proof {
        assert(v@.take(n as int) =~= v@);
    }
    r
}

fn sm_check(m: &SourceMap) -> (r: bool)
    ensures
        r == m.wf(),
{
    let n = m.tokens.len();
    let ns = m.sources.len();
    let mut i: usize = 0;
    while i < n
        invariant
            i <= n,
            n == m.tokens@.len(),
            ns == m.sources@.len(),
            forall|j: int| 0 <= j < i ==> (#[trigger] m.tokens@[j]).src_id < ns,
        decreases n - i,
    {
        if m.tokens[i].src_id >= ns as u64 {
            return false;
        }
        i = i + 1;
    }
    proof {
        assert(strs(m.sources@).len() == m.sources@.len());
    }
    true
}

/// Collapses a module's accumulated transform-map chain into one map. Fails
/// exactly when some map of the chain is malformed (a token pointing outside
/// its source list); an empty chain collapses to the empty map.
pub fn collapse_sourcemaps(chain: &Vec<SourceMap>) -> (r: Result<SourceMap, SourceMapError>)
    ensures
        match r {
            Ok(m) => chain_ok(chain@) && strs(m.sources@) == collapse_model(chain@).0 && m.tokens@
                == collapse_model(chain@).1 && m.wf(),
            Err(_) => !chain_ok(chain@),
        },
{
    let n = chain.len();
    let mut i: usize = 0;
    while i < n
        invariant
            i <= n,
            n == chain@.len(),
            forall|j: int| 0 <= j < i ==> (#[trigger] chain@[j]).wf(),
        decreases n - i,
    {
        if !sm_check(&chain[i]) {
            return Err(SourceMapError {});
        }
        i = i + 1;
    }
    if n == 0 {
        let m = SourceMap { sources: Vec::new(), tokens: Vec::new() };
        proof {
            assert(strs(m.sources@) =~= Seq::<Seq<char>>::empty());
            assert(m.tokens@ =~= Seq::<Token>::empty());
        }
        return Ok(m);
    }
    let sources = clone_strings(&chain[0].sources);
    let mut tokens = clone_tokens(&chain[0].tokens);
    let mut k: usize = 1;
    while k < n
        invariant
            1 <= k <= n,
            n == chain@.len(),
            chain_ok(chain@),
            strs(sources@) == collapse_model(chain@.take(k as int)).0,
            tokens@ == collapse_model(chain@.take(k as int)).1,
            sm_wf(strs(sources@), tokens@),
        decreases n - k,
    {
        let composed = compose_exec(&tokens, &chain[k].tokens);
        proof {
            assert(chain@.take(k + 1).drop_last() =~= chain@.take(k as int));
            assert(chain@.take(k + 1).last() == chain@[k as int]);
            lemma_compose_wf(strs(sources@), tokens@, chain@[k as int].tokens@);
        }
        tokens = composed;
        k = k + 1;
    }
    proof {
        assert(chain@.take(n as int) =~= chain@);
    }
    Ok(SourceMap { sources, tokens })
}

/// The ghost value of a piece list: each piece's text and, where the piece is
/// mapped, its map's sources and tokens.
pub open spec fn lift_pieces(pieces: Seq<(String, Option<SourceMap>)>) -> Seq<
    (Seq<char>, Option<(Seq<Seq<char>>, Seq<Token>)>),
> {
    pieces.map_values(
        |p: (String, Option<SourceMap>)|
            (
                p.0@,
                match p.1 {
                    Option::None => Option::<(Seq<Seq<char>>, Seq<Token>)>::None,
                    Option::Some(m) => Option::Some((strs(m.sources@), m.tokens@)),
                },
            ),
    )
}

/// The texts of a chunk's pieces.
pub open spec fn piece_texts(pieces: Seq<(Seq<char>, Option<(Seq<Seq<char>>, Seq<Token>)>)>) -> Seq<
    Seq<char>,
> {
    pieces.map_values(|p: (Seq<char>, Option<(Seq<Seq<char>>, Seq<Token>)>)| p.0)
}

/// The line at which piece `i` starts in the joined text: the lines taken by
/// the earlier pieces, one more per join.
pub open spec fn lines_before(
    pieces: Seq<(Seq<char>, Option<(Seq<Seq<char>>, Seq<Token>)>)>,
    i: int,
) -> nat
    decreases i,
{
    if i <= 0 {
        0
    } else {
        lines_before(pieces, i - 1) + newline_count(pieces[i - 1].0) + 1
    }
}

/// Saturation to the largest value a map position can carry.
pub open spec fn sat64(x: int) -> u64 {
    if x > u64::MAX {
        u64::MAX
    } else if x < 0 {
        0
    } else {
        x as u64
    }
}

/// A token shifted down by `dlines` lines, its source index shifted by `dsrc`.
pub open spec fn adjust_token(t: Token, dlines: nat, dsrc: nat) -> Token {
    Token {
        dst_line: sat64(t.dst_line + dlines),
        dst_col: t.dst_col,
        src_id: sat64(t.src_id + dsrc),
        src_line: t.src_line,
        src_col: t.src_col,
    }
}

/// The composed map of a chunk: each mapped piece contributes its sources and
/// its tokens shifted to the piece's line offset; unmapped pieces (the import
/// preamble, the export footer) contribute nothing.
pub open spec fn concat_model(pieces: Seq<(Seq<char>, Option<(Seq<Seq<char>>, Seq<Token>)>)>) -> (
    Seq<Seq<char>>,
    Seq<Token>,
)
    decreases pieces.len(),
{
    if pieces.len() == 0 {
        (Seq::<Seq<char>>::empty(), Seq::<Token>::empty())
    } else {
        let prev = concat_model(pieces.drop_last());
        match pieces.last().1 {
            None => prev,
            Some(m) => (
                prev.0 + m.0,
                prev.1 + m.1.map_values(
                    |t: Token| adjust_token(t, lines_before(pieces, pieces.len() - 1), prev.0.len()),
                ),
            ),
        }
    }
}

proof fn lemma_lines_before_prefix(
    pieces: Seq<(Seq<char>, Option<(Seq<Seq<char>>, Seq<Token>)>)>,
    j: int,
    i: int,
)
    requires
        0 <= i <= j,
        j <= pieces.len(),
    ensures
        lines_before(pieces.take(j), i) == lines_before(pieces, i),
    decreases i,
{
    if i > 0 {
        lemma_lines_before_prefix(pieces, j, i - 1);
    }
}

/// Joins the pieces' texts with one line break between neighbours.
pub fn join_texts(pieces: &Vec<(String, Option<SourceMap>)>) -> (r: String)
    ensures
        r@ == join_lines(piece_texts(lift_pieces(pieces@))),
{
    let ghost lp = lift_pieces(pieces@);
    let n = pieces.len();
    let mut content = String::new();
    let mut i: usize = 0;
    proof {
        assert(piece_texts(lp.take(0)) =~= Seq::<Seq<char>>::empty());
    }
    while i < n
        invariant
            i <= n,
            n == pieces@.len(),
            lp == lift_pieces(pieces@),
            content@ == join_lines(piece_texts(lp.take(i as int))),
        decreases n - i,
    {
        if i > 0 {
            content.append("\n");
        }
        content.append(pieces[i].0.as_str());
        proof {
            reveal_strlit("\n");
            assert(piece_texts(lp.take(i + 1)).drop_last() =~= piece_texts(lp.take(i as int)));
            assert(piece_texts(lp.take(i + 1)).last() == pieces@[i as int].0@);
            if i == 0 {
                assert(join_lines(piece_texts(lp.take(1))) == piece_texts(lp.take(1))[0]);
            }
        }
        i = i + 1;
    }
    proof {
        assert(lp.take(n as int) =~= lp);
    }
    content
}

/// Concatenates the pieces into the chunk's text and composes their maps:
/// the text is the pieces joined with one line break between neighbours, and
/// each mapped piece's tokens are shifted to the line its text starts at.
pub fn concat_sourcemaps(pieces: &Vec<(String, Option<SourceMap>)>) -> (r: (String, SourceMap))
    ensures
        r.0@ == join_lines(piece_texts(lift_pieces(pieces@))),
        strs(r.1.sources@) == concat_model(lift_pieces(pieces@)).0,
        r.1.tokens@ == concat_model(lift_pieces(pieces@)).1,
{
    let ghost lp = lift_pieces(pieces@);
    let content = join_texts(pieces);
    let n = pieces.len();
    let mut out_sources: Vec<String> = Vec::new();
    let mut out_tokens: Vec<Token> = Vec::new();
    let mut line_off: u64 = 0;
    let mut i: usize = 0;
    proof {
        assert(strs(out_sources@) =~= Seq::<Seq<char>>::empty());
        assert(out_tokens@ =~= Seq::<Token>::empty());
    }
    while i < n
        invariant
            i <= n,
            n == pieces@.len(),
            lp == lift_pieces(pieces@),
            strs(out_sources@) == concat_model(lp.take(i as int)).0,
            out_tokens@ == concat_model(lp.take(i as int)).1,
            out_sources@.len() == concat_model(lp.take(i as int)).0.len(),
            line_off == sat64(lines_before(lp, i as int) as int),
        decreases n - i,
    {
        proof {
            assert(lp.take(i + 1).drop_last() =~= lp.take(i as int));
            assert(lp.take(i + 1).last() == lp[i as int]);
            lemma_lines_before_prefix(lp, i + 1, i as int);
        }
        let ghost prev_model = concat_model(lp.take(i as int));
        match &pieces[i].1 {
            None => {},
            Some(m) => {
                let src_off: u64 = out_sources.len() as u64;
                let ghost dlines = lines_before(lp, i as int);
                let ns = m.sources.len();
                let mut j: usize = 0;
                proof {
                    assert(strs(m.sources@).take(0) =~= Seq::<Seq<char>>::empty());
                    assert(strs(out_sources@) =~= prev_model.0 + strs(m.sources@).take(0));
                }
                while j < ns
                    invariant
                        j <= ns,
                        ns == m.sources@.len(),
                        out_sources@.len() == prev_model.0.len() + j,
                        strs(out_sources@) == prev_model.0 + strs(m.sources@).take(j as int),
                    decreases ns - j,
                {
                    let ghost pre = out_sources@;
                    out_sources.push(m.sources[j].clone());
                    proof {
                        assert(out_sources@ == pre.push(m.sources@[j as int]));
                        assert(strs(pre.push(m.sources@[j as int])) =~= strs(pre).push(
                            m.sources@[j as int]@,
                        ));
                        assert(strs(m.sources@).take(j + 1) =~= strs(m.sources@).take(
                            j as int,
                        ).push(m.sources@[j as int]@));
                        assert(strs(out_sources@) =~= prev_model.0 + strs(m.sources@).take(j + 1));
                    }
                    j = j + 1;
                }
                proof {
                    assert(strs(m.sources@).take(ns as int) =~= strs(m.sources@));
                }
                let nt = m.tokens.len();
                let ghost f = |t: Token| adjust_token(t, dlines, prev_model.0.len() as nat);
                let mut j2: usize = 0;
                proof {
                    assert(m.tokens@.take(0).map_values(f) =~= Seq::<Token>::empty());
                    assert(out_tokens@ =~= prev_model.1 + m.tokens@.take(0).map_values(f));
                }
                while j2 < nt
                    invariant
                        j2 <= nt,
                        nt == m.tokens@.len(),
                        src_off == prev_model.0.len(),
                        line_off == sat64(dlines as int),
                        f == (|t: Token| adjust_token(t, dlines, prev_model.0.len() as nat)),
                        out_tokens@ == prev_model.1 + m.tokens@.take(j2 as int).map_values(f),
                    decreases nt - j2,
                {
                    let t = m.tokens[j2];
                    let adjusted = Token {
                        dst_line: t.dst_line.saturating_add(line_off),
                        dst_col: t.dst_col,
                        src_id: t.src_id.saturating_add(src_off),
                        src_line: t.src_line,
                        src_col: t.src_col,
                    };
                    proof {
                        assert(adjusted == f(t)) by {
                            assert(t.dst_line.saturating_add(line_off) == sat64(
                                t.dst_line + dlines,
                            ));
                            assert(t.src_id.saturating_add(src_off) == sat64(
                                t.src_id + prev_model.0.len(),
                            ));
                        }
                        assert(m.tokens@.take(j2 + 1).map_values(f) =~= m.tokens@.take(
                            j2 as int,
                        ).map_values(f).push(f(t)));
                    }
                    out_tokens.push(adjusted);
                    proof {
                        assert(out_tokens@ =~= prev_model.1 + m.tokens@.take(j2 + 1).map_values(f));
                    }
                    j2 = j2 + 1;
                }
                proof {
                    assert(m.tokens@.take(nt as int) =~= m.tokens@);
                    assert(lp[i as int].1 == Option::Some((strs(m.sources@), m.tokens@)));
                    assert(m.tokens@.map_values(f) =~= m.tokens@.map_values(
                        |t: Token| adjust_token(
                            t,
                            lines_before(lp.take(i + 1), i as int),
                            prev_model.0.len() as nat,
                        ),
                    ));
                }
            },
        }
        let nl = count_newlines(pieces[i].0.as_str());
        line_off = line_off.saturating_add(nl as u64).saturating_add(1);
        proof {
            assert(lp[i as int].0 == pieces@[i as int].0@);
            assert(line_off == sat64(lines_before(lp, i + 1) as int));
        }
        i = i + 1;
    }
    proof {
        assert(lp.take(n as int) =~= lp);
    }
    (content, SourceMap { sources: out_sources, tokens: out_tokens })
}

} // verus!
