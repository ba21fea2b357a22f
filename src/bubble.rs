//! The speech bubble: a bordered box sized to the text it holds.

use vstd::prelude::*;
use crate::text::{
    clamp, lemma_cols_concat, lemma_cols_spaces, lemma_longest_bounds, lemma_repeat_add, lines_of,
    longest_cols, longest_line_size, pieces, repeat, repeat_str, spaces, spaces_str, split_lines,
};
use crate::width::{display_width, str_cols};

verus! {

pub const TEXT_BUBBLE_LEFT_SIDE: &'static str = "   ⣿⡇  ";
pub const TEXT_BUBBLE_TOP_LEFT: &'static str = "   ⣴⡾⠿";
pub const TEXT_BUBBLE_TOP_SIDE: &'static str = "⠿";
pub const TEXT_BUBBLE_TOP_RIGHT: &'static str = "⠿⢷⣦";
pub const TEXT_BUBBLE_RIGHT_SIDE: &'static str = "  ⢸⣿";
pub const TEXT_BUBBLE_BOTTOM_RIGHT: &'static str = "⣾⠟";
pub const TEXT_BUBBLE_BOTTOM_SIDE: &'static str = "⣶";
pub const TEXT_BUBBLE_BOTTOM_LEFT: &'static str = "   ⠙⣿⡆       ⣴⣶";
pub const TEXT_BUBBLE_TAIL: &'static str = "   ⢰⣿     ⢀⣠⣾⠟⠋
  ⣠⣿⠃ ⢀⣠⣤⣾⠟⠋
  ⢿⣷⡾⠿⠟⠛⠉
";

/// Columns taken by a border fragment.
pub open spec fn cols_of(f: &str) -> int {
    str_cols(f@) as int
}

/// The narrowest text width whose box still fits the bottom border and tail:
/// the bottom corners' width less the two sides' width.
pub open spec fn minimum_text_width() -> nat {
    clamp(
        cols_of(TEXT_BUBBLE_BOTTOM_LEFT) + cols_of(TEXT_BUBBLE_BOTTOM_RIGHT) - cols_of(
            TEXT_BUBBLE_LEFT_SIDE,
        ) - cols_of(TEXT_BUBBLE_RIGHT_SIDE),
    )
}

/// The width that every line of `text` is padded to inside the box.
pub open spec fn content_width(text: Seq<char>) -> nat {
    let longest = longest_cols(lines_of(text));
    if longest < minimum_text_width() {
        minimum_text_width()
    } else {
        longest
    }
}

/// The box's outer width for a given content width.
pub open spec fn bubble_width(cw: nat) -> int {
    cols_of(TEXT_BUBBLE_LEFT_SIDE) + cw + cols_of(TEXT_BUBBLE_RIGHT_SIDE)
}

/// The top border and its newline.
pub open spec fn top_border(cw: nat) -> Seq<char> {
    let n = clamp(
        bubble_width(cw) - cols_of(TEXT_BUBBLE_TOP_LEFT) - cols_of(TEXT_BUBBLE_TOP_RIGHT),
    );
    TEXT_BUBBLE_TOP_LEFT@ + repeat(TEXT_BUBBLE_TOP_SIDE@, n) + TEXT_BUBBLE_TOP_RIGHT@ + seq!['\n']
}

/// The bottom border, its newline and the tail.
pub open spec fn bottom_border(cw: nat) -> Seq<char> {
    let n = clamp(
        bubble_width(cw) - cols_of(TEXT_BUBBLE_BOTTOM_LEFT) - cols_of(TEXT_BUBBLE_BOTTOM_RIGHT),
    );
    TEXT_BUBBLE_BOTTOM_LEFT@ + repeat(TEXT_BUBBLE_BOTTOM_SIDE@, n) + TEXT_BUBBLE_BOTTOM_RIGHT@
        + seq!['\n'] + TEXT_BUBBLE_TAIL@
}

/// A line padded with spaces out to `cw` columns, without the sides.
pub open spec fn padded(line: Seq<char>, cw: nat) -> Seq<char> {
    line + spaces(clamp(cw - str_cols(line)))
}

/// One row of the box's inside, without its newline.
pub open spec fn content_row(line: Seq<char>, cw: nat) -> Seq<char> {
    TEXT_BUBBLE_LEFT_SIDE@ + padded(line, cw) + TEXT_BUBBLE_RIGHT_SIDE@
}

/// One row of the box's inside, with its newline.
pub open spec fn speech_row(line: Seq<char>, cw: nat) -> Seq<char> {
    content_row(line, cw) + seq!['\n']
}

/// A row for each line, in order.
pub open spec fn speech_rows(ls: Seq<Seq<char>>, cw: nat) -> Seq<char>
    decreases ls.len(),
{
    if ls.len() == 0 {
        Seq::empty()
    } else {
        speech_rows(ls.drop_last(), cw) + speech_row(ls.last(), cw)
    }
}

/// The whole box around the lines `ls` at content width `cw`: the top, a
/// blank row, a row per line, a blank row, the bottom and the tail.
pub open spec fn frame(ls: Seq<Seq<char>>, cw: nat) -> Seq<char> {
    top_border(cw) + speech_row(Seq::empty(), cw) + speech_rows(ls, cw) + speech_row(
        Seq::empty(),
        cw,
    ) + bottom_border(cw)
}

/// The speech bubble around `text`.
pub open spec fn bubble(text: Seq<char>) -> Seq<char> {
    frame(lines_of(text), content_width(text))
}


/// The border fragments are short, so sums of their widths stay small.
proof fn lemma_fragment_lengths()
    ensures
        TEXT_BUBBLE_LEFT_SIDE@.len() <= 16,
        TEXT_BUBBLE_TOP_LEFT@.len() <= 16,
        TEXT_BUBBLE_TOP_SIDE@.len() <= 16,
        TEXT_BUBBLE_TOP_RIGHT@.len() <= 16,
        TEXT_BUBBLE_RIGHT_SIDE@.len() <= 16,
        TEXT_BUBBLE_BOTTOM_RIGHT@.len() <= 16,
        TEXT_BUBBLE_BOTTOM_SIDE@.len() <= 16,
        TEXT_BUBBLE_BOTTOM_LEFT@.len() <= 16,
{
    reveal_strlit("   ⣿⡇  ");
    reveal_strlit("   ⣴⡾⠿");
    reveal_strlit("⠿");
    reveal_strlit("⠿⢷⣦");
    reveal_strlit("  ⢸⣿");
    reveal_strlit("⣾⠟");
    reveal_strlit("⣶");
    reveal_strlit("   ⠙⣿⡆       ⣴⣶");
}

/// `side` repeated `cw + plus - minus` times, or no times where that is negative.
fn side_run(side: &str, cw: usize, plus: usize, minus: usize) -> (r: String)
    ensures
        r@ == repeat(side@, clamp(cw + plus - minus)),
{
    if plus >= minus {
        let mut run = repeat_str(side, cw);
        let extra = repeat_str(side, plus - minus);
        run.append(extra.as_str());
        proof {
            lemma_repeat_add(side@, cw as nat, (plus - minus) as nat);
        }
        run
    } else if cw > minus - plus {
        repeat_str(side, cw - (minus - plus))
    } else {
        repeat_str(side, 0)
    }
}

/// The top border for content width `text_width`.
fn top(text_width: usize) -> (r: String)
    ensures
        r@ == top_border(text_width as nat),
{
    proof {
        lemma_fragment_lengths();
        reveal_strlit("\n");
    }
    let plus = display_width(TEXT_BUBBLE_LEFT_SIDE) + display_width(TEXT_BUBBLE_RIGHT_SIDE);
    let minus = display_width(TEXT_BUBBLE_TOP_LEFT) + display_width(TEXT_BUBBLE_TOP_RIGHT);
    let top_side = side_run(TEXT_BUBBLE_TOP_SIDE, text_width, plus, minus);
    let mut out = String::from_str(TEXT_BUBBLE_TOP_LEFT);
    out.append(top_side.as_str());
    out.append(TEXT_BUBBLE_TOP_RIGHT);
    out.append("\n");
    proof {
        assert("\n"@ =~= seq!['\n']);
        assert(out@ =~= top_border(text_width as nat));
    }
    out
}

/// The bottom border and the tail for content width `text_width`.
fn bottom(text_width: usize) -> (r: String)
    ensures
        r@ == bottom_border(text_width as nat),
{
    proof {
        lemma_fragment_lengths();
        reveal_strlit("\n");
    }
    let plus = display_width(TEXT_BUBBLE_LEFT_SIDE) + display_width(TEXT_BUBBLE_RIGHT_SIDE);
    let minus = display_width(TEXT_BUBBLE_BOTTOM_LEFT) + display_width(TEXT_BUBBLE_BOTTOM_RIGHT);
    let bottom_side = side_run(TEXT_BUBBLE_BOTTOM_SIDE, text_width, plus, minus);
    let mut out = String::from_str(TEXT_BUBBLE_BOTTOM_LEFT);
    out.append(bottom_side.as_str());
    out.append(TEXT_BUBBLE_BOTTOM_RIGHT);
    out.append("\n");
    out.append(TEXT_BUBBLE_TAIL);
    proof {
        assert("\n"@ =~= seq!['\n']);
        assert(out@ =~= bottom_border(text_width as nat));
    }
    out
}

/// `text` between the sides, padded with spaces out to `text_width` columns.
fn speech_line(text: &str, text_width: usize) -> (r: String)
    ensures
        r@ == speech_row(text@, text_width as nat),
{
    proof {
        reveal_strlit("\n");
    }
    let w = display_width(text);
    let pad = if text_width > w {
        spaces_str(text_width - w)
    } else {
        spaces_str(0)
    };
    let mut out = String::from_str(TEXT_BUBBLE_LEFT_SIDE);
    out.append(text);
    out.append(pad.as_str());
    out.append(TEXT_BUBBLE_RIGHT_SIDE);
    out.append("\n");
    proof {
        assert("\n"@ =~= seq!['\n']);
        assert(out@ =~= speech_row(text@, text_width as nat));
    }
    out
}

/// A row with no text, padded out to `text_width` columns.
fn empty_line(text_width: usize) -> (r: String)
    ensures
        r@ == speech_row(Seq::empty(), text_width as nat),
{
    proof {
        reveal_strlit("");
        assert(""@ =~= Seq::<char>::empty());
    }
    speech_line("", text_width)
}

/// The speech bubble around `text`: a box as wide as the widest line of
/// `text` (and never narrower than the minimum text width), with each line of
/// `text` padded with spaces to that width, and the tail below it.
pub fn say(text: &str) -> (r: String)
    ensures
        r@ == bubble(text@),
{
    proof {
        lemma_fragment_lengths();
    }
    let corners = display_width(TEXT_BUBBLE_BOTTOM_LEFT) + display_width(TEXT_BUBBLE_BOTTOM_RIGHT);
    let sides = display_width(TEXT_BUBBLE_LEFT_SIDE) + display_width(TEXT_BUBBLE_RIGHT_SIDE);
    let minimum_text_width = if corners > sides {
        corners - sides
    } else {
        0
    };
    let mut full_width = longest_line_size(text);
    if full_width < minimum_text_width {
        full_width = minimum_text_width;
    }
    let ghost cw = content_width(text@);
    assert(full_width == cw);
    let lines = split_lines(text);
    let ghost ls = lines_of(text@);
    let mut output = top(full_width);
    output.append(empty_line(full_width).as_str());
    let ghost head = output@;
    let mut i: usize = 0;
    while i < lines.len()
        invariant
            i <= lines@.len() == ls.len(),
            forall|j: int| 0 <= j < lines@.len() ==> #[trigger] lines@[j]@ == ls[j],
            output@ == head + speech_rows(ls.take(i as int), full_width as nat),
        decreases lines@.len() - i,
    {
        output.append(speech_line(lines[i].as_str(), full_width).as_str());
        proof {
            let t = ls.take(i + 1);
            assert(t.drop_last() =~= ls.take(i as int));
            assert(output@ =~= head + speech_rows(t, full_width as nat));
        }
        i = i + 1;
    }
    assert(ls.take(i as int) =~= ls);
    output.append(empty_line(full_width).as_str());
    output.append(bottom(full_width).as_str());
    assert(output@ =~= bubble(text@));
    output
}

/// For text of a single line, the row that holds it is exactly as wide as
/// the box: the left side, the content width, and the right side.
pub proof fn law_row_width(s: Seq<char>)
    requires
        lines_of(s).len() == 1,
    ensures
        bubble(s) == top_border(content_width(s)) + speech_row(Seq::empty(), content_width(s))
            + content_row(lines_of(s)[0], content_width(s)) + seq!['\n'] + speech_row(
            Seq::empty(),
            content_width(s),
        ) + bottom_border(content_width(s)),
        str_cols(content_row(lines_of(s)[0], content_width(s))) == cols_of(TEXT_BUBBLE_LEFT_SIDE)
            + content_width(s) + cols_of(TEXT_BUBBLE_RIGHT_SIDE),
{
    let ls = lines_of(s);
    let cw = content_width(s);
    let line = ls[0];
    let pad = spaces(clamp(cw - str_cols(line)));
    assert(ls.drop_last() =~= Seq::<Seq<char>>::empty());
    assert(speech_rows(ls.drop_last(), cw) == Seq::<char>::empty());
    assert(ls.last() == line);
    assert(speech_rows(ls, cw) =~= speech_row(line, cw));
    lemma_longest_bounds(ls, 0);
    lemma_cols_spaces(clamp(cw - str_cols(line)));
    lemma_cols_concat(line, pad);
    lemma_cols_concat(TEXT_BUBBLE_LEFT_SIDE@, line + pad);
    lemma_cols_concat(TEXT_BUBBLE_LEFT_SIDE@ + (line + pad), TEXT_BUBBLE_RIGHT_SIDE@);
    assert(TEXT_BUBBLE_LEFT_SIDE@ + padded(line, cw) =~= TEXT_BUBBLE_LEFT_SIDE@ + (line + pad));
}

/// Empty text gets the narrowest box: its content width is the minimum text
/// width, and it holds only the two blank rows.
pub proof fn law_minimum_width()
    ensures
        content_width(Seq::empty()) == minimum_text_width(),
        bubble(Seq::empty()) == frame(Seq::empty(), minimum_text_width()),
{
    let e = Seq::<char>::empty();
    assert(pieces(e) == seq![e]);
    assert(lines_of(e) =~= Seq::<Seq<char>>::empty());
}

} // verus!
