use vstd::prelude::*;

verus! {

/// Number of line-break characters in a piece of output text.
pub open spec fn newline_count(s: Seq<char>) -> nat
    decreases s.len(),
{
    if s.len() == 0 {
        0
    } else {
        newline_count(s.drop_last()) + if s.last() == '\n' {
            1nat
        } else {
            0nat
        }
    }
}

/// Counts the line-break characters of a piece of text.
pub fn count_newlines(s: &str) -> (n: usize)
    ensures
        n == newline_count(s@),
{
    let len = s.unicode_len();
    let mut n: usize = 0;
    let mut i: usize = 0;
    while i < len
        invariant
            i <= len,
            n <= i,
            len == s@.len(),
            n == newline_count(s@.take(i as int)),
        decreases len - i,
    {
        let c = s.get_char(i);
        proof {
            assert(s@.take(i + 1).drop_last() =~= s@.take(i as int));
            assert(s@.take(i + 1).last() == s@[i as int]);
        }
        if c == '\n' {
            n = n + 1;
        }
        i = i + 1;
    }
    proof {
        assert(s@.take(len as int) =~= s@);
    }
    n
}

/// The decimal digit character for `d`, with `d < 10`.
pub open spec fn digit_char(d: nat) -> char {
    if d == 0 {
        '0'
    } else if d == 1 {
        '1'
    } else if d == 2 {
        '2'
    } else if d == 3 {
        '3'
    } else if d == 4 {
        '4'
    } else if d == 5 {
        '5'
    } else if d == 6 {
        '6'
    } else if d == 7 {
        '7'
    } else if d == 8 {
        '8'
    } else {
        '9'
    }
}

/// The decimal digit sequence of `n`, most significant digit first.
pub open spec fn dec_digits(n: nat) -> Seq<char>
    decreases n,
{
    if n < 10 {
        seq![digit_char(n)]
    } else {
        dec_digits(n / 10) + seq![digit_char(n % 10)]
    }
}

fn digit_str(d: u64) -> (r: &'static str)
    requires
        d < 10,
    ensures
        r@ == seq![digit_char(d as nat)],
{
    proof {
        reveal_strlit("0");
        reveal_strlit("1");
        reveal_strlit("2");
        reveal_strlit("3");
        reveal_strlit("4");
        reveal_strlit("5");
        reveal_strlit("6");
        reveal_strlit("7");
        reveal_strlit("8");
        reveal_strlit("9");
    }
    let r: &'static str = if d == 0 {
        "0"
    } else if d == 1 {
        "1"
    } else if d == 2 {
        "2"
    } else if d == 3 {
        "3"
    } else if d == 4 {
        "4"
    } else if d == 5 {
        "5"
    } else if d == 6 {
        "6"
    } else if d == 7 {
        "7"
    } else if d == 8 {
        "8"
    } else {
        "9"
    };
    proof {
        assert(r@ =~= seq![digit_char(d as nat)]);
    }
    r
}

/// Renders `n` in decimal.
pub fn u64_to_string(n: u64) -> (s: String)
    ensures
        s@ == dec_digits(n as nat),
    decreases n,
{
    if n < 10 {
        digit_str(n).to_owned()
    } else {
        let mut s = u64_to_string(n / 10);
        s.append(digit_str(n % 10));
        s
    }
}

/// Every decimal rendering holds at least one digit; numbers from ten on hold at least two.
pub proof fn lemma_dec_digits_len(n: nat)
    ensures
        1 <= dec_digits(n).len(),
        n < 10 ==> dec_digits(n).len() == 1,
        n >= 10 ==> dec_digits(n).len() >= 2,
    decreases n,
{
    if n >= 10 {
        lemma_dec_digits_len(n / 10);
    }
}

/// Distinct numbers render to distinct decimal digit sequences.
pub proof fn lemma_dec_digits_injective(a: nat, b: nat)
    requires
        dec_digits(a) == dec_digits(b),
    ensures
        a == b,
    decreases a,
{
    lemma_dec_digits_len(a);
    lemma_dec_digits_len(b);
    if a < 10 && b < 10 {
        assert(dec_digits(a)[0] == digit_char(a));
        assert(dec_digits(b)[0] == digit_char(b));
    } else if a >= 10 && b >= 10 {
        assert(dec_digits(a).last() == digit_char(a % 10));
        assert(dec_digits(b).last() == digit_char(b % 10));
        assert(dec_digits(a).drop_last() =~= dec_digits(a / 10));
        assert(dec_digits(b).drop_last() =~= dec_digits(b / 10));
        lemma_dec_digits_injective(a / 10, b / 10);
    } else {
        assert(false);
    }
}

/// The pieces of a chunk joined into one text, one line break between neighbours.
pub open spec fn join_lines(pieces: Seq<Seq<char>>) -> Seq<char>
    decreases pieces.len(),
{
    if pieces.len() == 0 {
        Seq::empty()
    } else if pieces.len() == 1 {
        pieces[0]
    } else {
        join_lines(pieces.drop_last()) + seq!['\n'] + pieces.last()
    }
}

/// Character offset at which piece `i` starts inside the joined text.
pub open spec fn piece_start(pieces: Seq<Seq<char>>, i: int) -> int
    decreases i,
{
    if i <= 0 {
        0
    } else {
        piece_start(pieces, i - 1) + pieces[i - 1].len() + 1
    }
}

proof fn lemma_piece_start_prefix(pieces: Seq<Seq<char>>, j: int, i: int)
    requires
        0 <= i <= j,
        j < pieces.len(),
    ensures
        piece_start(pieces.take(j), i) == piece_start(pieces, i),
    decreases i,
{
    if i > 0 {
        lemma_piece_start_prefix(pieces, j, i - 1);
    }
}

proof fn lemma_join_lines_len(pieces: Seq<Seq<char>>)
    requires
        pieces.len() > 0,
    ensures
        join_lines(pieces).len() + 1 == piece_start(pieces, pieces.len() as int),
    decreases pieces.len(),
{
    let n = pieces.len() as int;
    assert(piece_start(pieces, n) == piece_start(pieces, n - 1) + pieces[n - 1].len() + 1);
    if pieces.len() == 1 {
        assert(piece_start(pieces, 0) == 0);
        assert(join_lines(pieces) == pieces[0]);
    } else {
        lemma_join_lines_len(pieces.drop_last());
        assert(pieces.drop_last() =~= pieces.take(n - 1));
        lemma_piece_start_prefix(pieces, n - 1, n - 1);
        assert(join_lines(pieces) == join_lines(pieces.drop_last()) + seq!['\n'] + pieces.last());
        assert(join_lines(pieces).len() == join_lines(pieces.drop_last()).len() + 1 + pieces[n
            - 1].len());
    }
}

/// Order preservation: every piece of a joined text stands unchanged at its
/// start offset, and the offsets grow with the piece's position, so an earlier
/// piece's text stands wholly before a later piece's text.
pub proof fn lemma_join_lines_order(pieces: Seq<Seq<char>>, i: int)
    requires
        0 <= i < pieces.len(),
    ensures
        piece_start(pieces, i) >= 0,
        piece_start(pieces, i) + pieces[i].len() <= join_lines(pieces).len(),
        join_lines(pieces).subrange(piece_start(pieces, i), piece_start(pieces, i) + pieces[i].len())
            == pieces[i],
        i + 1 < pieces.len() ==> piece_start(pieces, i) + pieces[i].len() < piece_start(
            pieces,
            i + 1,
        ),
    decreases pieces.len(),
{
    lemma_piece_start_nonneg(pieces, i);
    if i == pieces.len() - 1 {
        if pieces.len() == 1 {
            assert(join_lines(pieces).subrange(0, pieces[0].len() as int) =~= pieces[0]);
        } else {
            lemma_join_lines_len(pieces.drop_last());
            assert(pieces.drop_last() =~= pieces.take(pieces.len() - 1));
            lemma_piece_start_prefix(pieces, pieces.len() - 1, pieces.len() - 1);
            assert(join_lines(pieces).subrange(
                piece_start(pieces, i),
                piece_start(pieces, i) + pieces[i].len(),
            ) =~= pieces[i]);
        }
    } else {
        lemma_join_lines_order(pieces.drop_last(), i);
        assert(pieces.drop_last() =~= pieces.take(pieces.len() - 1));
        lemma_piece_start_prefix(pieces, pieces.len() - 1, i);
        lemma_piece_start_prefix(pieces, pieces.len() - 1, i + 1);
        assert(join_lines(pieces).subrange(
            piece_start(pieces, i),
            piece_start(pieces, i) + pieces[i].len(),
        ) =~= join_lines(pieces.drop_last()).subrange(
            piece_start(pieces.drop_last(), i),
            piece_start(pieces.drop_last(), i) + pieces[i].len(),
        ));
    }
}

proof fn lemma_piece_start_nonneg(pieces: Seq<Seq<char>>, i: int)
    ensures
        piece_start(pieces, i) >= 0,
    decreases i,
{
    if i > 0 {
        lemma_piece_start_nonneg(pieces, i - 1);
    }
}

} // verus!
