//! Kind-name casing.
//!
//! A kind name written in capitalized-word form, such as `NotifyAll`, is
//! converted to the lowercase underscore-joined form `notify_all` used for
//! generated function names.  A separator is inserted before an uppercase
//! character exactly when it is not the first character and the name's
//! first character is itself uppercase.  Characters outside the ASCII
//! uppercase range pass through unchanged.

use vstd::prelude::*;

verus! {

/// Whether `c` is an ASCII uppercase letter.
pub open spec fn is_upper(c: char) -> bool {
    65 <= c as u32 <= 90
}

/// The ASCII lowercase form of `c`; characters that are not ASCII
/// uppercase are left as they are.
pub open spec fn lower(c: char) -> char {
    if is_upper(c) {
        ((c as u32) + 32) as char
    } else {
        c
    }
}

/// What one character contributes to the snake-cased name.
pub open spec fn snake_piece(c: char, is_first: bool, first_upper: bool) -> Seq<char> {
    if is_upper(c) {
        if !is_first && first_upper {
            seq!['_', lower(c)]
        } else {
            seq![lower(c)]
        }
    } else {
        seq![c]
    }
}

/// The snake-cased form of the first `n` characters of `t`.
pub open spec fn snake_prefix(t: Seq<char>, n: int) -> Seq<char>
    decreases n,
{
    if n <= 0 {
        Seq::empty()
    } else {
        snake_prefix(t, n - 1) + snake_piece(t[n - 1], n - 1 == 0, t.len() > 0 && is_upper(t[0]))
    }
}

/// The snake-cased form of a whole name.
pub open spec fn snake_of(t: Seq<char>) -> Seq<char> {
    snake_prefix(t, t.len() as int)
}

/// The one-character string holding the lowercase form of an ASCII
/// uppercase letter.
fn lower_str(c: char) -> (r: &'static str)
    requires
        is_upper(c),
    ensures
        r@ == seq![lower(c)],
{
    proof {
        reveal_strlit("a");
        reveal_strlit("b");
        reveal_strlit("c");
        reveal_strlit("d");
        reveal_strlit("e");
        reveal_strlit("f");
        reveal_strlit("g");
        reveal_strlit("h");
        reveal_strlit("i");
        reveal_strlit("j");
        reveal_strlit("k");
        reveal_strlit("l");
        reveal_strlit("m");
        reveal_strlit("n");
        reveal_strlit("o");
        reveal_strlit("p");
        reveal_strlit("q");
        reveal_strlit("r");
        reveal_strlit("s");
        reveal_strlit("t");
        reveal_strlit("u");
        reveal_strlit("v");
        reveal_strlit("w");
        reveal_strlit("x");
        reveal_strlit("y");
        reveal_strlit("z");
    }
    match c {
        'A' => "a",
        'B' => "b",
        'C' => "c",
        'D' => "d",
        'E' => "e",
        'F' => "f",
        'G' => "g",
        'H' => "h",
        'I' => "i",
        'J' => "j",
        'K' => "k",
        'L' => "l",
        'M' => "m",
        'N' => "n",
        'O' => "o",
        'P' => "p",
        'Q' => "q",
        'R' => "r",
        'S' => "s",
        'T' => "t",
        'U' => "u",
        'V' => "v",
        'W' => "w",
        'X' => "x",
        'Y' => "y",
        _ => {
            assert(c == 'Z');
            "z"
        },
    }
}

/// Converts a capitalized-word kind name to its lowercase
/// underscore-joined form, as in `NotifyAll` to `notify_all`.
pub fn to_snake_case(input: &str) -> (r: String)
    ensures
        r@ == snake_of(input@),
{
    let n: usize = input.unicode_len();
    let first_upper: bool = if n > 0 {
        let c0 = input.get_char(0);
        65 <= c0 as u32 && c0 as u32 <= 90
    } else {
        false
    };
    let mut out = String::new();
    let mut i: usize = 0;
    while i < n
        invariant
            i <= n,
            n == input@.len(),
            first_upper == (input@.len() > 0 && is_upper(input@[0])),
            out@ == snake_prefix(input@, i as int),
        decreases n - i,
    {
        let c = input.get_char(i);
        if 65 <= c as u32 && c as u32 <= 90 {
            if i != 0 && first_upper {
                proof {
                    reveal_strlit("_");
                }
                out.append("_");
            }
            out.append(lower_str(c));
        } else {
            let piece = input.substring_char(i, i + 1);
            assert(piece@ == seq![input@[i as int]]);
            out.append(piece);
        }
        i = i + 1;
        assert(out@ == snake_prefix(input@, i as int));
    }
    out
}

} // verus!
