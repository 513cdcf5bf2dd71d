use vstd::prelude::*;
use vstd::std_specs::iter::IteratorSpec;

use crate::utils::format::{decimal_digits, push_char, push_decimal};

verus! {

/// Display width in terminal columns of a string, as the `unicode-width`
/// crate measures it (`UnicodeWidthStr::width`).
pub uninterp spec fn unicode_str_width(text: Seq<char>) -> usize;

/// Display width in terminal columns of one character, as the
/// `unicode-width` crate measures it (`UnicodeWidthChar::width`); `None` for
/// control characters.
pub uninterp spec fn unicode_char_width(c: char) -> Option<usize>;

/// `UnicodeWidthStr::width` of `unicode-width`: the result is the crate's
/// column width of the string; how the crate computes it (its Unicode
/// tables, emoji sequences) is not stated here.
#[verifier::external_body]
pub(crate) fn str_width(text: &str) -> (width: usize)
    ensures
        width == unicode_str_width(text@),
{
    unicode_width::UnicodeWidthStr::width(text)
}

/// `UnicodeWidthChar::width` of `unicode-width`: the result is the crate's
/// column width of the character (`None` for control characters); the
/// crate's tables are not stated here.
#[verifier::external_body]
pub(crate) fn char_width(c: char) -> (width: Option<usize>)
    ensures
        width == unicode_char_width(c),
{
    unicode_width::UnicodeWidthChar::width(c)
}

/// Columns a character takes while truncating; control characters count as
/// one column.
pub open spec fn char_columns(c: char) -> int {
    match unicode_char_width(c) {
        Some(w) => w as int,
        None => 1,
    }
}

/// Length of the prefix of `text` that truncation keeps, scanning from
/// position `i`: the first position whose character would take the prefix
/// before it beyond `cap` columns, or the whole text.
pub open spec fn kept_prefix_len(text: Seq<char>, cap: int, i: nat) -> nat
    decreases text.len() - i,
{
    if i >= text.len() {
        text.len()
    } else if unicode_str_width(text.take(i as int)) + char_columns(text[i as int]) > cap {
        i
    } else {
        kept_prefix_len(text, cap, i + 1)
    }
}

/// `text` unchanged when it fits in `width` columns; otherwise its longest
/// prefix that fits in `width - 1` columns (checked character by
/// character), followed by an ellipsis.
pub open spec fn truncated_text(text: Seq<char>, width: nat) -> Seq<char> {
    if unicode_str_width(text) <= width {
        text
    } else {
        let cap: int = if width >= 1 { width - 1 } else { 0 };
        text.take(kept_prefix_len(text, cap, 0) as int).push('\u{2026}')
    }
}

/// `text` followed by spaces up to `width` columns; unchanged when it is
/// already that wide.
pub open spec fn padded_text(text: Seq<char>, width: nat) -> Seq<char> {
    let cur = unicode_str_width(text);
    if cur >= width {
        text
    } else {
        text + spaces((width - cur) as nat)
    }
}

/// `n` spaces.
pub open spec fn spaces(n: nat) -> Seq<char> {
    Seq::new(n, |i: int| ' ')
}

/// Truncate `text` (by display width) with an ellipsis if it exceeds `width`.
pub fn truncate_width(text: &str, width: usize) -> (truncated: String)
    ensures
        truncated@ == truncated_text(text@, width as nat),
{
    if str_width(text) <= width {
        return text.to_string();
    }
    // reserve one column for the ellipsis
    let cap = width.saturating_sub(1);
    let mut out = String::new();
    let mut chars = text.chars();
    let ghost mut k: int = 0;
    proof {
        assert(text@.skip(0) =~= text@);
        assert(text@.take(0) =~= out@);
    }
    loop
        invariant_except_break
            IteratorSpec::remaining(&chars) == text@.skip(k),
        invariant
            0 <= k <= text@.len(),
            chars.obeys_prophetic_iter_laws(),
            out@ == text@.take(k),
            kept_prefix_len(text@, cap as int, 0) == kept_prefix_len(text@, cap as int, k as nat),
        ensures
            out@ == text@.take(kept_prefix_len(text@, cap as int, 0) as int),
        decreases text@.len() - k,
    {
        match chars.next() {
            None => {
                break;
            },
            Some(ch) => {
                assert(ch == text@[k]);
                let cur = str_width(out.as_str());
                let cols = match char_width(ch) {
                    Some(w) => w,
                    None => 1,
                };
                let over = match cur.checked_add(cols) {
                    Some(total) => total > cap,
                    None => true,
                };
                if over {
                    break;
                }
                push_char(&mut out, ch);
                proof {
                    k = k + 1;
                    assert(out@ =~= text@.take(k));
                    assert(text@.skip(k - 1).drop_first() =~= text@.skip(k));
                }
            },
        }
    }
    push_char(&mut out, '\u{2026}');
    out
}

/// Pad `text` with spaces up to `width` columns (display width aware).
pub fn pad_width(text: &str, width: usize) -> (padded: String)
    ensures
        padded@ == padded_text(text@, width as nat),
{
    let cur = str_width(text);
    if cur >= width {
        text.to_string()
    } else {
        let mut out = text.to_string();
        let fill = width - cur;
        let mut i: usize = 0;
        while i < fill
            invariant
                i <= fill,
                out@ == text@ + Seq::new(i as nat, |j: int| ' '),
            decreases fill - i,
        {
            push_char(&mut out, ' ');
            i = i + 1;
            assert(out@ =~= text@ + Seq::new(i as nat, |j: int| ' '));
        }
        out
    }
}

/// Truncation leaves a name that fits unchanged; otherwise it keeps a
/// prefix of the name and ends it with an ellipsis.
pub proof fn lemma_truncation_shape(text: Seq<char>, width: nat)
    ensures
        unicode_str_width(text) <= width ==> truncated_text(text, width) == text,
        unicode_str_width(text) > width ==> {
            let t = truncated_text(text, width);
            &&& t.len() >= 1
            &&& t.len() - 1 <= text.len()
            &&& t.last() == '\u{2026}'
            &&& t.drop_last() == text.take(t.len() - 1)
        },
{
    if unicode_str_width(text) > width {
        let cap: int = if width >= 1 { width - 1 } else { 0 };
        lemma_kept_prefix_in_range(text, cap, 0);
        let k = kept_prefix_len(text, cap, 0);
        assert(text.take(k as int).push('\u{2026}').drop_last() =~= text.take(k as int));
    }
}

/// The kept prefix is never longer than the text.
proof fn lemma_kept_prefix_in_range(text: Seq<char>, cap: int, i: nat)
    ensures
        kept_prefix_len(text, cap, i) <= text.len(),
    decreases text.len() - i,
{
    if i < text.len() && unicode_str_width(text.take(i as int)) + char_columns(text[i as int])
        <= cap {
        lemma_kept_prefix_in_range(text, cap, i + 1);
    }
}

/// Padding keeps the text and appends only spaces: as many as the text is
/// narrower than the width, none when it is not.
pub proof fn lemma_padding_appends_spaces(text: Seq<char>, width: nat)
    ensures
        ({
            let p = padded_text(text, width);
            let w = unicode_str_width(text);
            &&& p.take(text.len() as int) == text
            &&& p.len() == text.len() + (if w < width {
                width - w
            } else {
                0
            })
            &&& forall|k: int| text.len() <= k < p.len() ==> #[trigger] p[k] == ' '
        }),
{
    let p = padded_text(text, width);
    assert(p.take(text.len() as int) =~= text);
}

/// The prefix that truncation keeps, scanning from `i`, stays within `cap`
/// columns when the prefix up to `i` does and each character adds its own
/// columns to the prefix before it.
proof fn lemma_kept_prefix_fits(text: Seq<char>, cap: int, i: nat)
    requires
        i <= text.len(),
        unicode_str_width(text.take(i as int)) <= cap,
        forall|k: int|
            0 <= k < text.len() ==> #[trigger] unicode_str_width(text.take(k + 1))
                == unicode_str_width(text.take(k)) + char_columns(text[k]),
    ensures
        kept_prefix_len(text, cap, i) <= text.len(),
        unicode_str_width(text.take(kept_prefix_len(text, cap, i) as int)) <= cap,
    decreases text.len() - i,
{
    if i < text.len() {
        let c = text[i as int];
        if unicode_str_width(text.take(i as int)) + char_columns(c) <= cap {
            assert(unicode_str_width(text.take(i + 1 as int)) == unicode_str_width(
                text.take(i as int),
            ) + char_columns(c));
            lemma_kept_prefix_fits(text, cap, i + 1);
        }
    }
}

/// A sidebar name cell is exactly as wide as its column: truncation leaves
/// the name within the column and padding fills the rest. This holds for a
/// name whose prefixes grow, character by character, by the columns of each
/// character (the empty prefix taking none), and to whose prefixes and to
/// which an appended ellipsis adds one column and appended spaces one column
/// each.
pub proof fn lemma_name_cell_fills_column(text: Seq<char>, width: nat)
    requires
        width >= 1,
        unicode_str_width(Seq::<char>::empty()) == 0,
        forall|k: int|
            0 <= k < text.len() ==> #[trigger] unicode_str_width(text.take(k + 1))
                == unicode_str_width(text.take(k)) + char_columns(text[k]),
        forall|k: int|
            0 <= k <= text.len() ==> #[trigger] unicode_str_width(text.take(k).push('\u{2026}'))
                == unicode_str_width(text.take(k)) + 1,
        forall|n: nat| #[trigger]
            unicode_str_width(text + spaces(n)) == unicode_str_width(text) + n,
        forall|k: int, n: nat|
            0 <= k <= text.len() ==> #[trigger] unicode_str_width(
                text.take(k).push('\u{2026}') + spaces(n),
            ) == unicode_str_width(text.take(k).push('\u{2026}')) + n,
    ensures
        unicode_str_width(padded_text(truncated_text(text, width), width)) == width,
{
    if unicode_str_width(text) > width {
        let cap: int = width - 1;
        assert(text.take(0) =~= Seq::<char>::empty());
        lemma_kept_prefix_fits(text, cap, 0);
        let k = kept_prefix_len(text, cap, 0);
        let t = text.take(k as int).push('\u{2026}');
        assert(unicode_str_width(t) == unicode_str_width(text.take(k as int)) + 1);
        let cur = unicode_str_width(t);
        if cur < width {
            let n = (width - cur) as nat;
            assert(unicode_str_width(t + spaces(n)) == cur + n);
        }
    } else {
        let cur = unicode_str_width(text);
        if cur < width {
            let n = (width - cur) as nat;
            assert(unicode_str_width(text + spaces(n)) == cur + n);
        }
    }
}

/// Width left for an interface name in a sidebar row: the list's inner
/// width (the area minus its two borders) minus the speed text and the two
/// separating spaces, never below zero.
pub open spec fn name_column_width(area_width: u16, speed_width: usize) -> nat {
    let inner: int = if area_width >= 2 { area_width - 2 } else { 0 };
    let rest: int = if inner >= speed_width { inner - speed_width } else { 0 };
    if rest >= 2 { (rest - 2) as nat } else { 0 }
}

/// The name cell of one sidebar row: the interface name truncated to the
/// name column and padded to fill it.
pub fn sidebar_name_cell(name: &str, area_width: u16, speed_text: &str) -> (cell: String)
    ensures
        ({
            let w = name_column_width(area_width, unicode_str_width(speed_text@));
            cell@ == padded_text(truncated_text(name@, w), w)
        }),
{
    let inner_width = area_width.saturating_sub(2) as usize;
    let name_width = inner_width.saturating_sub(str_width(speed_text)).saturating_sub(2);
    let name_cut = truncate_width(name, name_width);
    pad_width(name_cut.as_str(), name_width)
}

/// The sidebar's title: which view is shown and how many interfaces it lists.
pub open spec fn sidebar_title_text(show_all: bool, count: nat) -> Seq<char> {
    seq![' '] + (if show_all {
        " All Interfaces "@
    } else {
        " Physical "@
    }) + seq!['('] + decimal_digits(count) + seq![')', ' ']
}

/// Title of the sidebar list, e.g. `"  Physical (3) "`.
pub fn sidebar_title(show_all: bool, count: usize) -> (title: String)
    ensures
        title@ == sidebar_title_text(show_all, count as nat),
{
    let mut s = String::new();
    push_char(&mut s, ' ');
    if show_all {
        s.append(" All Interfaces ");
    } else {
        s.append(" Physical ");
    }
    push_char(&mut s, '(');
    push_decimal(&mut s, count as u128);
    push_char(&mut s, ')');
    push_char(&mut s, ' ');
    proof {
        assert(s@ =~= sidebar_title_text(show_all, count as nat));
    }
    s
}

} // verus!
