use vstd::prelude::*;

use crate::utils::format::push_char;

verus! {

/// Width, in characters, of the key column of the help screen.
pub const HELP_KEY_WIDTH: usize = 12;

/// The key cell of a help row: two spaces of indent, then the label padded
/// with spaces to the key column's width (counted in characters).
pub open spec fn help_key_text(label: Seq<char>) -> Seq<char> {
    let fill: nat = if label.len() < HELP_KEY_WIDTH {
        (HELP_KEY_WIDTH - label.len()) as nat
    } else {
        0
    };
    seq![' ', ' '] + label + Seq::new(fill, |i: int| ' ')
}

/// The key cell of a help row, e.g. `"  q / Esc     "`.
pub fn help_key_label(label: &str) -> (cell: String)
    ensures
        cell@ == help_key_text(label@),
{
    let mut cell = String::new();
    push_char(&mut cell, ' ');
    push_char(&mut cell, ' ');
    cell.append(label);
    let n = label.unicode_len();
    let fill = if n < HELP_KEY_WIDTH {
        HELP_KEY_WIDTH - n
    } else {
        0
    };
    let ghost start = cell@;
    let mut i: usize = 0;
    while i < fill
        invariant
            i <= fill,
            cell@ == start + Seq::new(i as nat, |j: int| ' '),
        decreases fill - i,
    {
        push_char(&mut cell, ' ');
        i = i + 1;
        assert(cell@ =~= start + Seq::new(i as nat, |j: int| ' '));
    }
    proof {
        assert(cell@ =~= help_key_text(label@));
    }
    cell
}

} // verus!
