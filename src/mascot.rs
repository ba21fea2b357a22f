//! The mascot, and the mascot saying something.

use vstd::prelude::*;
use crate::bubble::{bubble, say};
use crate::stack::{horizontal_stack, stacked};
use crate::text::{clamp, lines_of, repeat, repeat_str, split_lines};

verus! {

pub const CLIPPY: &'static str = "
        ⢀⣀⣤⣤⣄⣀
      ⢠⣶⠟⣉⣤⣢⣄⡪⢝⢦⡀
     ⢰⡿⢁⣾⠟⠉⠉⠉⠹⣧⣃⢳⡀
   ⢀⣀⣼⡏⣼⠃     ⢹⣏⣸⡅
 ⢀⣴⡿⠿⣿⠃⣿      ⣸⣷⣿⣶⣄
⠠⠞⠁ ⢠⣿⠌⣿      ⣿⡇⣿⠛⠛⠿⣄
  ⢀⣠⠾⠿⠾⣷⡀   ⡠⢶⠛⠹⠿⢶⣄ ⠈
 ⢠⠋ ⢀⣁⡀⠘⠙⣦⡀⠘⠈ ⣠⣤⡀ ⠻⣦
 ⢀  ⢾⣿⣿  ⢘⣧⠇⡀⠘⢿⣿⠏  ⡿
 ⠈⢧⡀⠈⣉⡁ ⣤⡞ ⠘⢢⣀⡄ ⢠⣠⠾⠃
   ⠉⣷⡖⣶⡛⠉    ⣿⡏⣿⠋⠁
    ⢻⡇⣽⢺⣱⡄   ⣿⢇⡏  ⣰⡖⣦
    ⣿⡇⣿⢻⠸⡇   ⣿⢰⡏⢀⣾⢳⡾⠉
    ⣿⡄⡿⣿⠘⡁  ⠐⣿⢸⡇⣾⢇⡿
    ⣿⠐⣟⣧⢰   ⢸⣿⢺⠆⣿⢸⡇
    ⣿⠡⣟⣿⢸⡇  ⢸⣇⢿⠆⣿⢸⡅
    ⣿⠡⣏⣿⡸⡅  ⣼⢏⣼⠆⣿⢸⠃
    ⣿⠰⣿⠹⣶⣭⣖⣪⣵⡾⠏⢠⣿⢸⡁
    ⣿⢂⡷ ⠈⠉⠘⠉⠉  ⠸⣿⢼⡀
    ⣿⡍⢿⡀       ⣸⠇⣼
    ⠹⣯⡎⡻⢦⣀⣀⣀⣀⡤⠞⣉⣼⠃
     ⠈⠻⢷⣦⣢⣬⣤⣤⣶⠾⠋
         ⠉⠉⠉
";

/// The mascot art.
pub fn clippy() -> (r: String)
    ensures
        r@ == CLIPPY@,
{
    String::from_str(CLIPPY)
}

/// The mascot with enough blank lines above it to be as tall as `bubble`.
pub open spec fn raised_mascot(bubble: Seq<char>) -> Seq<char> {
    let n = clamp(lines_of(bubble).len() - lines_of(CLIPPY@).len());
    repeat(seq!['\n'], n) + CLIPPY@
}

/// The mascot with the speech bubble around `text` beside it; where the
/// bubble is taller, the mascot is moved down so that the bubble's tail does
/// not hang below him.
pub fn clippy_say(text: &str) -> (r: String)
    ensures
        r@ == stacked(raised_mascot(bubble(text@)), bubble(text@)),
{
    let speech_bubble = say(text);
    let clippy_height = split_lines(CLIPPY).len();
    let speech_bubble_height = split_lines(speech_bubble.as_str()).len();
    let difference = if speech_bubble_height > clippy_height {
        speech_bubble_height - clippy_height
    } else {
        0
    };
    proof {
        reveal_strlit("\n");
        assert("\n"@ =~= seq!['\n']);
    }
    let mut clippy = repeat_str("\n", difference);
    clippy.append(CLIPPY);
    horizontal_stack(clippy.as_str(), speech_bubble.as_str())
}

} // verus!
