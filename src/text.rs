//! Text as a block of lines: splitting, joining and repeating.

use vstd::prelude::*;
use itertools::Itertools;
use crate::width::{char_cols, display_width, str_cols};

verus! {

/// The pieces of `s` between newline characters; `n` newlines give `n + 1`
/// pieces, the last of which may be empty.
pub open spec fn pieces(s: Seq<char>) -> Seq<Seq<char>>
    decreases s.len(),
{
    if s.len() == 0 {
        seq![Seq::empty()]
    } else {
        let p = pieces(s.drop_last());
        if s.last() == '\n' {
            p.push(Seq::empty())
        } else {
            p.update(p.len() - 1, p.last().push(s.last()))
        }
    }
}

/// A line that ended in `"\r\n"` loses its carriage return.
pub open spec fn strip_cr(l: Seq<char>) -> Seq<char> {
    if l.len() > 0 && l.last() == '\r' {
        l.drop_last()
    } else {
        l
    }
}

/// The lines of `s`: split at `'\n'` or `"\r\n"`, with the terminators left
/// out, and no extra empty line after a final terminator.
pub open spec fn lines_of(s: Seq<char>) -> Seq<Seq<char>> {
    let p = pieces(s);
    let ended = Seq::new((p.len() - 1) as nat, |i: int| strip_cr(p[i]));
    if p.last().len() == 0 {
        ended
    } else {
        ended.push(p.last())
    }
}

/// The rows joined by single newlines, with none after the last row.
pub open spec fn join_lines(rows: Seq<Seq<char>>) -> Seq<char>
    decreases rows.len(),
{
    if rows.len() == 0 {
        Seq::empty()
    } else if rows.len() == 1 {
        rows[0]
    } else {
        join_lines(rows.drop_last()) + seq!['\n'] + rows.last()
    }
}

/// `s` written `n` times in a row.
pub open spec fn repeat(s: Seq<char>, n: nat) -> Seq<char>
    decreases n,
{
    if n == 0 {
        Seq::empty()
    } else {
        repeat(s, (n - 1) as nat) + s
    }
}

/// `x`, or zero where `x` is negative.
pub open spec fn clamp(x: int) -> nat {
    if x > 0 {
        x as nat
    } else {
        0
    }
}

/// `n` spaces.
pub open spec fn spaces(n: nat) -> Seq<char> {
    repeat(seq![' '], n)
}

/// Whether `s` holds a newline character.
pub open spec fn has_newline(s: Seq<char>) -> bool {
    exists|i: int| 0 <= i < s.len() && s[i] == '\n'
}

/// Relies on std's `str::lines` turned into owned strings by itertools'
/// `map_into` and `collect_vec`: one string per line, in order.
#[verifier::external_body]
pub(crate) fn split_lines(s: &str) -> (r: Vec<String>)
    ensures
        r@.len() == lines_of(s@).len(),
        forall|i: int| 0 <= i < r@.len() ==> #[trigger] r@[i]@ == lines_of(s@)[i],
{
    s.lines().map_into().collect_vec()
}

/// `s` written `n` times in a row.
pub fn repeat_str(s: &str, n: usize) -> (r: String)
    ensures
        r@ == repeat(s@, n as nat),
{
    let mut r = String::new();
    let mut i: usize = 0;
    while i < n
        invariant
            i <= n,
            r@ == repeat(s@, i as nat),
        decreases n - i,
    {
        r.append(s);
        i = i + 1;
    }
    r
}

/// A string of `n` spaces.
pub fn spaces_str(n: usize) -> (r: String)
    ensures
        r@ == spaces(n as nat),
{
    proof {
        reveal_strlit(" ");
        assert(" "@ =~= seq![' ']);
    }
    repeat_str(" ", n)
}

/// The width of the widest line, or zero when there is none.
pub open spec fn longest_cols(ls: Seq<Seq<char>>) -> nat
    decreases ls.len(),
{
    if ls.len() == 0 {
        0
    } else {
        let w = str_cols(ls.last());
        let m = longest_cols(ls.drop_last());
        if w > m {
            w
        } else {
            m
        }
    }
}

/// Display width of the widest line of `text` (zero for no lines).
pub fn longest_line_size(text: &str) -> (r: usize)
    ensures
        r == longest_cols(lines_of(text@)),
{
    let lines = split_lines(text);
    let ghost ls = lines_of(text@);
    let mut best: usize = 0;
    let mut i: usize = 0;
    while i < lines.len()
        invariant
            i <= lines@.len() == ls.len(),
            forall|j: int| 0 <= j < lines@.len() ==> #[trigger] lines@[j]@ == ls[j],
            best == longest_cols(ls.take(i as int)),
        decreases lines@.len() - i,
    {
        let w = display_width(lines[i].as_str());
        assert(ls.take(i + 1).drop_last() =~= ls.take(i as int));
        if w > best {
            best = w;
        }
        i = i + 1;
    }
    assert(ls.take(i as int) =~= ls);
    best
}

/// No line is wider than the widest.
pub proof fn lemma_longest_bounds(ls: Seq<Seq<char>>, i: int)
    requires
        0 <= i < ls.len(),
    ensures
        str_cols(ls[i]) <= longest_cols(ls),
    decreases ls.len(),
{
    if i < ls.len() - 1 {
        lemma_longest_bounds(ls.drop_last(), i);
    }
}

pub proof fn lemma_pieces_nonempty(s: Seq<char>)
    ensures
        pieces(s).len() >= 1,
    decreases s.len(),
{
    if s.len() > 0 {
        lemma_pieces_nonempty(s.drop_last());
    }
}

/// No piece holds a newline.
pub proof fn lemma_pieces_no_newline(s: Seq<char>)
    ensures
        forall|i: int| 0 <= i < pieces(s).len() ==> !has_newline(#[trigger] pieces(s)[i]),
    decreases s.len(),
{
    if s.len() > 0 {
        let x = s.drop_last();
        lemma_pieces_no_newline(x);
        lemma_pieces_nonempty(x);
        let p = pieces(x);
        assert forall|i: int| 0 <= i < pieces(s).len() implies !has_newline(
            #[trigger] pieces(s)[i],
        ) by {
            if s.last() != '\n' && i == p.len() - 1 {
                let q = p.last().push(s.last());
                assert(pieces(s)[i] == q);
                assert forall|j: int| 0 <= j < q.len() implies q[j] != '\n' by {
                    if j < p.last().len() {
                        assert(q[j] == p.last()[j]);
                    }
                }
            } else if i < p.len() {
                assert(pieces(s)[i] == p[i]);
            }
        }
    }
}

/// No line holds a newline.
pub proof fn lemma_lines_no_newline(s: Seq<char>)
    ensures
        forall|i: int| 0 <= i < lines_of(s).len() ==> !has_newline(#[trigger] lines_of(s)[i]),
{
    lemma_pieces_no_newline(s);
    lemma_pieces_nonempty(s);
    let p = pieces(s);
    assert forall|i: int| 0 <= i < lines_of(s).len() implies !has_newline(
        #[trigger] lines_of(s)[i],
    ) by {
        if i < p.len() - 1 {
            let l = p[i];
            assert(!has_newline(l));
            assert(lines_of(s)[i] == strip_cr(l));
            if l.len() > 0 && l.last() == '\r' {
                assert forall|j: int| 0 <= j < l.drop_last().len() implies l.drop_last()[j]
                    != '\n' by {
                    assert(l.drop_last()[j] == l[j]);
                }
            }
        } else {
            assert(lines_of(s)[i] == p[p.len() - 1]);
        }
    }
}

/// Appending text without a newline extends the last piece.
pub proof fn lemma_pieces_append(x: Seq<char>, y: Seq<char>)
    requires
        !has_newline(y),
    ensures
        pieces(x + y) == pieces(x).update(pieces(x).len() - 1, pieces(x).last() + y),
    decreases y.len(),
{
    lemma_pieces_nonempty(x);
    if y.len() == 0 {
        assert(x + y =~= x);
        assert(pieces(x).last() + y =~= pieces(x).last());
        assert(pieces(x).update(pieces(x).len() - 1, pieces(x).last()) =~= pieces(x));
    } else {
        let y0 = y.drop_last();
        assert(!has_newline(y0)) by {
            assert forall|j: int| 0 <= j < y0.len() implies y0[j] != '\n' by {
                assert(y0[j] == y[j]);
            }
        }
        assert(y.last() != '\n') by {
            assert(y[y.len() - 1] != '\n');
        }
        lemma_pieces_append(x, y0);
        assert((x + y).drop_last() =~= x + y0);
        assert((x + y).last() == y.last());
        let px = pieces(x);
        let q = pieces(x + y0);
        assert(q.len() == px.len());
        assert(q.last() == px.last() + y0);
        assert(q.last().push(y.last()) =~= px.last() + y);
        assert(pieces(x + y) == q.update(q.len() - 1, q.last().push(y.last())));
        assert(pieces(x + y) =~= pieces(x).update(pieces(x).len() - 1, pieces(x).last() + y));
    }
}

/// Splitting the joined rows at newlines gives the rows back.
pub proof fn lemma_pieces_join(rows: Seq<Seq<char>>)
    requires
        rows.len() >= 1,
        forall|i: int| 0 <= i < rows.len() ==> !has_newline(#[trigger] rows[i]),
    ensures
        pieces(join_lines(rows)) == rows,
    decreases rows.len(),
{
    let e = Seq::<char>::empty();
    if rows.len() == 1 {
        lemma_pieces_append(e, rows[0]);
        assert(e + rows[0] =~= rows[0]);
        assert(pieces(e) == seq![e]);
        assert(seq![e].update(0, rows[0]) =~= rows);
    } else {
        let d = rows.drop_last();
        assert forall|i: int| 0 <= i < d.len() implies !has_newline(#[trigger] d[i]) by {
            assert(d[i] == rows[i]);
        }
        lemma_pieces_join(d);
        let x = join_lines(d) + seq!['\n'];
        assert(x.drop_last() =~= join_lines(d));
        assert(pieces(x) == d.push(e));
        assert(!has_newline(rows[rows.len() - 1]));
        lemma_pieces_append(x, rows.last());
        assert(e + rows.last() =~= rows.last());
        assert(d.push(e).update(d.len() as int, rows.last()) =~= rows);
    }
}

pub proof fn lemma_spaces_no_newline(n: nat)
    ensures
        !has_newline(spaces(n)),
    decreases n,
{
    if n > 0 {
        let m = (n - 1) as nat;
        lemma_spaces_no_newline(m);
        assert forall|j: int| 0 <= j < spaces(n).len() implies spaces(n)[j] != '\n' by {
            assert(spaces(n) == spaces(m) + seq![' ']);
            if j < spaces(m).len() {
                assert(spaces(n)[j] == spaces(m)[j]);
            } else {
                assert(spaces(n)[j] == ' ');
            }
        }
    }
}

pub proof fn lemma_repeat_add(s: Seq<char>, a: nat, b: nat)
    ensures
        repeat(s, a) + repeat(s, b) == repeat(s, a + b),
    decreases b,
{
    if b == 0 {
        assert(repeat(s, a) + repeat(s, b) =~= repeat(s, a));
    } else {
        lemma_repeat_add(s, a, (b - 1) as nat);
        assert(repeat(s, a) + repeat(s, b) =~= repeat(s, a) + repeat(s, (b - 1) as nat) + s);
    }
}

pub proof fn lemma_cols_concat(a: Seq<char>, b: Seq<char>)
    ensures
        str_cols(a + b) == str_cols(a) + str_cols(b),
    decreases b.len(),
{
    if b.len() == 0 {
        assert(a + b =~= a);
    } else {
        lemma_cols_concat(a, b.drop_last());
        assert((a + b).drop_last() =~= a + b.drop_last());
    }
}

pub proof fn lemma_cols_spaces(n: nat)
    ensures
        str_cols(spaces(n)) == n,
    decreases n,
{
    if n > 0 {
        lemma_cols_spaces((n - 1) as nat);
        lemma_cols_concat(spaces((n - 1) as nat), seq![' ']);
        assert(seq![' '].drop_last() =~= Seq::<char>::empty());
        assert(str_cols(Seq::<char>::empty()) == 0);
        assert(char_cols(' ') == 1);
        assert(str_cols(seq![' ']) == 1);
    }
}

} // verus!
