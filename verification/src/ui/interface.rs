use vstd::prelude::*;
use vstd::std_specs::iter::IteratorSpec;

use crate::utils::format::{decimal_digits, push_char, push_decimal};

verus! {

/// One row of an address family in the interface panel: the header cell,
/// the value cell, and whether the row is the "more addresses" note.
#[derive(Debug)]
pub struct AddressRow {
    pub header: String,
    pub value: String,
    pub is_note: bool,
}

impl View for AddressRow {
    type V = (Seq<char>, Seq<char>, bool);

    open spec fn view(&self) -> (Seq<char>, Seq<char>, bool) {
        (self.header@, self.value@, self.is_note)
    }
}

/// First address shown: the scroll offset, but never so far that fewer than
/// `max_rows` addresses would remain visible.
pub open spec fn window_start(len: nat, offset: nat, max_rows: nat) -> nat {
    let last_start: nat = if len >= max_rows { (len - max_rows) as nat } else { 0 };
    if offset <= last_start { offset } else { last_start }
}

/// Number of addresses shown from `start`.
pub open spec fn window_shown(len: nat, start: nat, max_rows: nat) -> nat {
    let left: nat = if len >= start { (len - start) as nat } else { 0 };
    if left <= max_rows { left } else { max_rows }
}

/// The note that counts the addresses below the visible window.
pub open spec fn more_note_text(remaining: nat) -> Seq<char> {
    seq!['(', '+'] + decimal_digits(remaining) + " more, use \u{2191}\u{2193})"@
}

/// The rows shown for one address family: a single "-" row when there is no
/// address; otherwise the visible window of addresses (the label on its
/// first row only) and, when addresses are left below it, a note that
/// counts them.
pub open spec fn address_rows_view(
    label: Seq<char>,
    addrs: Seq<Seq<char>>,
    offset: nat,
    max_rows: nat,
) -> Seq<(Seq<char>, Seq<char>, bool)> {
    if addrs.len() == 0 {
        seq![(label, seq!['-'], false)]
    } else {
        let start = window_start(addrs.len(), offset, max_rows);
        let shown = window_shown(addrs.len(), start, max_rows);
        let remaining = (addrs.len() - start - shown) as nat;
        let window = Seq::new(
            shown,
            |i: int|
                (if i == 0 {
                    label
                } else {
                    Seq::<char>::empty()
                }, addrs[start + i], false),
        );
        if remaining > 0 {
            window.push((Seq::<char>::empty(), more_note_text(remaining), true))
        } else {
            window
        }
    }
}

/// When all addresses fit, they are all shown, in order and without a
/// note, whatever the scroll offset.
pub proof fn lemma_fitting_addresses_all_shown(
    label: Seq<char>,
    addrs: Seq<Seq<char>>,
    offset: nat,
    max_rows: nat,
)
    requires
        0 < addrs.len() <= max_rows,
    ensures
        address_rows_view(label, addrs, offset, max_rows).len() == addrs.len(),
        forall|i: int|
            0 <= i < addrs.len() ==> (#[trigger] address_rows_view(label, addrs, offset, max_rows)[i]).1
                == addrs[i],
{
}

/// At most `max_rows` addresses and one note are shown.
pub proof fn lemma_address_rows_bounded(
    label: Seq<char>,
    addrs: Seq<Seq<char>>,
    offset: nat,
    max_rows: nat,
)
    requires
        max_rows > 0,
    ensures
        address_rows_view(label, addrs, offset, max_rows).len() <= max_rows + 1,
{
}

/// The "(+N more, use ↑↓)" note.
pub fn more_note(remaining: usize) -> (note: String)
    ensures
        note@ == more_note_text(remaining as nat),
{
    let mut s = String::new();
    push_char(&mut s, '(');
    push_char(&mut s, '+');
    push_decimal(&mut s, remaining as u128);
    s.append(" more, use \u{2191}\u{2193})");
    proof {
        assert(s@ =~= more_note_text(remaining as nat));
    }
    s
}

/// Build rows for one address family, applying a family-specific scroll offset.
pub fn address_rows(label: &str, addrs: &[String], scroll_offset: usize, max_rows: usize) -> (rows:
    Vec<AddressRow>)
    ensures
        rows@.map_values(|r: AddressRow| r@) == address_rows_view(
            label@,
            addrs@.map_values(|a: String| a@),
            scroll_offset as nat,
            max_rows as nat,
        ),
{
    let ghost addr_views = addrs@.map_values(|a: String| a@);
    let mut rows: Vec<AddressRow> = Vec::new();
    if addrs.len() == 0 {
        let mut dash = String::new();
        push_char(&mut dash, '-');
        rows.push(AddressRow { header: label.to_string(), value: dash, is_note: false });
        proof {
            assert(rows@.map_values(|r: AddressRow| r@) =~= address_rows_view(
                label@,
                addr_views,
                scroll_offset as nat,
                max_rows as nat,
            ));
        }
        return rows;
    }
    let len = addrs.len();
    let last_start = len.saturating_sub(max_rows);
    let start = if scroll_offset <= last_start {
        scroll_offset
    } else {
        last_start
    };
    let left = len - start;
    let shown = if left <= max_rows {
        left
    } else {
        max_rows
    };
    let ghost window = Seq::new(
        shown as nat,
        |i: int|
            (if i == 0 {
                label@
            } else {
                Seq::<char>::empty()
            }, addr_views[start + i], false),
    );
    let mut i: usize = 0;
    while i < shown
        invariant
            i <= shown,
            start + shown <= len,
            len == addrs@.len(),
            addr_views == addrs@.map_values(|a: String| a@),
            window.len() == shown,
            forall|j: int|
                0 <= j < shown ==> #[trigger] window[j] == (if j == 0 {
                    label@
                } else {
                    Seq::<char>::empty()
                }, addr_views[start + j], false),
            rows@.len() == i,
            forall|j: int| 0 <= j < i ==> #[trigger] rows@[j]@ == window[j],
        decreases shown - i,
    {
        let header = if i == 0 {
            label.to_string()
        } else {
            String::new()
        };
        let value = addrs[start + i].clone();
        let row = AddressRow { header, value, is_note: false };
        assert(row.value@ == addr_views[start + i]);
        assert(row@ == window[i as int]);
        let ghost before = rows@;
        rows.push(row);
        i = i + 1;
        proof {
            assert(rows@ == before.push(row));
            assert forall|j: int| 0 <= j < i implies #[trigger] rows@[j]@ == window[j] by {
                if j < i - 1 {
                    assert(rows@[j] == before[j]);
                }
            }
        }
    }
    let remaining = len - start - shown;
    if remaining > 0 {
        rows.push(AddressRow { header: String::new(), value: more_note(remaining), is_note: true });
    }
    proof {
        assert(rows@.len() == shown || rows@.len() == shown + 1);
        assert forall|j: int| 0 <= j < shown implies #[trigger] rows@[j]@ == window[j] by {}
        assert(rows@.map_values(|r: AddressRow| r@) =~= address_rows_view(
            label@,
            addr_views,
            scroll_offset as nat,
            max_rows as nat,
        ));
    }
    rows
}

/// The state text names an up interface: it contains "Up".
pub fn state_is_up(state: &str) -> (up: bool)
    ensures
        up == exists|i: int|
            0 <= i && i + 1 < state@.len() && #[trigger] state@[i] == 'U' && state@[i + 1] == 'p',
{
    let mut prev_is_u = false;
    let mut chars = state.chars();
    let ghost mut k: int = 0;
    proof {
        assert(state@.skip(0) =~= state@);
    }
    loop
        invariant_except_break
            IteratorSpec::remaining(&chars) == state@.skip(k),
            prev_is_u == (k > 0 && state@[k - 1] == 'U'),
            forall|i: int| 0 <= i && i + 1 < k ==> !(#[trigger] state@[i] == 'U' && state@[i + 1] == 'p'),
        invariant
            0 <= k <= state@.len(),
            chars.obeys_prophetic_iter_laws(),
        ensures
            forall|i: int| 0 <= i && i + 1 < k ==> !(#[trigger] state@[i] == 'U' && state@[i + 1] == 'p'),
            k == state@.len(),
        decreases state@.len() - k,
    {
        match chars.next() {
            None => {
                break;
            },
            Some(c) => {
                assert(c == state@[k]);
                if prev_is_u && c == 'p' {
                    assert(state@[k - 1] == 'U' && state@[k] == 'p');
                    return true;
                }
                prev_is_u = c == 'U';
                proof {
                    k = k + 1;
                    assert(state@.skip(k - 1).drop_first() =~= state@.skip(k));
                }
            },
        }
    }
    false
}

} // verus!
