//! Two blocks of text side by side.

use vstd::prelude::*;
use crate::text::{
    has_newline, join_lines, lemma_cols_concat, lemma_cols_spaces, lemma_lines_no_newline,
    lemma_longest_bounds, lemma_pieces_join, lemma_spaces_no_newline, lines_of, longest_cols,
    longest_line_size, pieces, spaces, spaces_str, split_lines,
};
use crate::width::{display_width, str_cols};

verus! {

/// Line `i` of a block, or the empty line below its end.
pub open spec fn line_at(ls: Seq<Seq<char>>, i: int) -> Seq<char> {
    if 0 <= i < ls.len() {
        ls[i]
    } else {
        Seq::empty()
    }
}

/// The spaces that bring line `i` of the left block out to its widest line.
pub open spec fn left_padding(ls: Seq<Seq<char>>, i: int) -> Seq<char> {
    spaces((longest_cols(ls) - str_cols(line_at(ls, i))) as nat)
}

/// Row `i` of the two blocks side by side.
pub open spec fn stack_row(ls: Seq<Seq<char>>, rs: Seq<Seq<char>>, i: int) -> Seq<char> {
    line_at(ls, i) + left_padding(ls, i) + line_at(rs, i)
}

/// As many rows as the taller block has lines.
pub open spec fn stack_rows(ls: Seq<Seq<char>>, rs: Seq<Seq<char>>) -> Seq<Seq<char>> {
    let h = if ls.len() >= rs.len() {
        ls.len()
    } else {
        rs.len()
    };
    Seq::new(h, |i: int| stack_row(ls, rs, i))
}

/// The text `left` with the text `right` beside it.
pub open spec fn stacked(left: Seq<char>, right: Seq<char>) -> Seq<char> {
    join_lines(stack_rows(lines_of(left), lines_of(right)))
}

/// Puts `str2` beside `str1`: every line of `str2` starts right after the
/// widest line of `str1`, and the shorter block is continued with empty lines.
pub fn horizontal_stack(str1: &str, str2: &str) -> (r: String)
    ensures
        r@ == stacked(str1@, str2@),
{
    let stack1 = split_lines(str1);
    let stack2 = split_lines(str2);
    let ghost ls = lines_of(str1@);
    let ghost rs = lines_of(str2@);
    let ghost rows = stack_rows(ls, rs);
    let tallest = if stack1.len() >= stack2.len() {
        stack1.len()
    } else {
        stack2.len()
    };
    let longest = longest_line_size(str1);
    let mut output = String::new();
    let mut i: usize = 0;
    while i < tallest
        invariant
            i <= tallest == rows.len(),
            rows == stack_rows(ls, rs),
            stack1@.len() == ls.len(),
            stack2@.len() == rs.len(),
            forall|j: int| 0 <= j < stack1@.len() ==> #[trigger] stack1@[j]@ == ls[j],
            forall|j: int| 0 <= j < stack2@.len() ==> #[trigger] stack2@[j]@ == rs[j],
            longest == longest_cols(ls),
            output@ == join_lines(rows.take(i as int)),
        decreases tallest - i,
    {
        proof {
            reveal_strlit("");
            reveal_strlit("\n");
            assert(""@ =~= Seq::<char>::empty());
        }
        let left: &str = if i < stack1.len() {
            stack1[i].as_str()
        } else {
            ""
        };
        let right: &str = if i < stack2.len() {
            stack2[i].as_str()
        } else {
            ""
        };
        assert(left@ == line_at(ls, i as int));
        assert(right@ == line_at(rs, i as int));
        let w = display_width(left);
        proof {
            if i < ls.len() {
                lemma_longest_bounds(ls, i as int);
            }
        }
        let pad = spaces_str(longest - w);
        if i > 0 {
            output.append("\n");
        }
        output.append(left);
        output.append(pad.as_str());
        output.append(right);
        proof {
            let t = rows.take(i + 1);
            assert(t.drop_last() =~= rows.take(i as int));
            assert(t.last() == rows[i as int]);
            assert(rows[i as int] == stack_row(ls, rs, i as int));
            if i == 0 {
                assert(output@ =~= t[0]);
            } else {
                assert(output@ =~= join_lines(t.drop_last()) + seq!['\n'] + t.last());
            }
        }
        i = i + 1;
    }
    assert(rows.take(i as int) =~= rows);
    output
}

/// The last row of the two blocks side by side is empty: the left block's
/// last line is empty and no wider than every other, and the right block
/// has nothing on that row.
pub open spec fn ends_blank(left: Seq<char>, right: Seq<char>) -> bool {
    let rows = stack_rows(lines_of(left), lines_of(right));
    rows.len() > 0 && rows.last().len() == 0
}

proof fn lemma_rows_no_newline(left: Seq<char>, right: Seq<char>)
    ensures
        forall|i: int|
            0 <= i < stack_rows(lines_of(left), lines_of(right)).len() ==> !has_newline(
                #[trigger] stack_rows(lines_of(left), lines_of(right))[i],
            ),
{
    let ls = lines_of(left);
    let rs = lines_of(right);
    lemma_lines_no_newline(left);
    lemma_lines_no_newline(right);
    let rows = stack_rows(ls, rs);
    assert forall|i: int| 0 <= i < rows.len() implies !has_newline(#[trigger] rows[i]) by {
        let a = line_at(ls, i);
        let b = left_padding(ls, i);
        let c = line_at(rs, i);
        assert(rows[i] == a + b + c);
        assert(!has_newline(a));
        assert(!has_newline(c));
        lemma_spaces_no_newline((longest_cols(ls) - str_cols(a)) as nat);
        assert forall|j: int| 0 <= j < rows[i].len() implies rows[i][j] != '\n' by {
            if j < a.len() {
                assert(rows[i][j] == a[j]);
            } else if j < a.len() + b.len() {
                assert(rows[i][j] == b[j - a.len()]);
            } else {
                assert(rows[i][j] == c[j - a.len() - b.len()]);
            }
        }
    }
}

/// Stacking keeps the height: the result has as many lines as the taller
/// block, unless its last row comes out empty.
pub proof fn law_stack_line_count(left: Seq<char>, right: Seq<char>)
    requires
        !ends_blank(left, right),
    ensures
        lines_of(stacked(left, right)).len() == if lines_of(left).len() >= lines_of(right).len() {
            lines_of(left).len()
        } else {
            lines_of(right).len()
        },
{
    let rows = stack_rows(lines_of(left), lines_of(right));
    let out = stacked(left, right);
    if rows.len() == 0 {
        assert(pieces(out) == seq![Seq::<char>::empty()]);
    } else {
        lemma_rows_no_newline(left, right);
        lemma_pieces_join(rows);
        assert(pieces(out) == rows);
    }
}

/// On every row where both blocks have a line, the right block's line starts
/// at the column just past the left block's widest line: the row is the left
/// line, then spaces, then the right line, and the part before the right line
/// is exactly as wide as the left block.
pub proof fn law_column_alignment(left: Seq<char>, right: Seq<char>, i: int)
    requires
        0 <= i < lines_of(left).len(),
        i < lines_of(right).len(),
    ensures
        pieces(stacked(left, right))[i] == lines_of(left)[i] + left_padding(lines_of(left), i)
            + lines_of(right)[i],
        str_cols(lines_of(left)[i] + left_padding(lines_of(left), i)) == longest_cols(
            lines_of(left),
        ),
{
    let ls = lines_of(left);
    let rows = stack_rows(ls, lines_of(right));
    lemma_rows_no_newline(left, right);
    lemma_pieces_join(rows);
    lemma_longest_bounds(ls, i);
    lemma_cols_concat(ls[i], left_padding(ls, i));
    lemma_cols_spaces((longest_cols(ls) - str_cols(ls[i])) as nat);
}

/// The result never ends in a newline, unless its last row comes out empty.
pub proof fn law_no_trailing_newline(left: Seq<char>, right: Seq<char>)
    requires
        !ends_blank(left, right),
    ensures
        stacked(left, right).len() == 0 || stacked(left, right).last() != '\n',
{
    let rows = stack_rows(lines_of(left), lines_of(right));
    let out = stacked(left, right);
    if rows.len() > 0 {
        lemma_rows_no_newline(left, right);
        let l = rows.last();
        assert(!has_newline(rows[rows.len() - 1]));
        assert(l.len() > 0);
        if rows.len() == 1 {
            assert(out == l);
        } else {
            assert(out == join_lines(rows.drop_last()) + seq!['\n'] + l);
        }
        assert(out.last() == l.last());
        assert(l[l.len() - 1] != '\n');
    }
}

} // verus!
