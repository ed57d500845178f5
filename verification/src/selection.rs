//! Decisions about captured selections: when the accessibility text must be
//! replaced by a copy of the selection, and which copied text is kept.

use vstd::prelude::*;
use crate::text::{is_blank, trim};

verus! {

/// The object replacement character, which stands for an embedded object.
pub open spec fn is_placeholder_char(c: char) -> bool {
    c == '\u{fffc}' || c == '\u{fffd}'
}

/// The text holds an embedded-object placeholder or a replacement character,
/// so the accessibility text is not a faithful copy of what was selected.
pub open spec fn has_placeholder(text: Seq<char>) -> bool {
    exists|i: int| 0 <= i < text.len() && is_placeholder_char(#[trigger] text[i])
}

/// Must the selection be read again through the copy shortcut?
pub fn needs_copy_fallback(text: &str) -> (r: bool)
    ensures
        r == has_placeholder(text@),
{
    let mut found = false;
    for c in it: text.chars()
        invariant
            it.seq() == text@,
            found == exists|i: int| 0 <= i < it.index() && is_placeholder_char(#[trigger] text@[i]),
    {
        if c == '\u{fffc}' || c == '\u{fffd}' {
            found = true;
        }
    }
    found
}

/// Is the text read through accessibility used as it is? Only when there is
/// one and it holds no placeholder.
pub fn accessibility_text_suffices(text: Option<&str>) -> (r: bool)
    ensures
        r == match text {
            Some(t) => !has_placeholder(t@),
            None => false,
        },
{
    match text {
        Some(t) => !needs_copy_fallback(t),
        None => false,
    }
}

/// The copied text that is kept: text that holds more than whitespace.
pub fn copied_selection_text(text: Option<String>) -> (r: Option<String>)
    ensures
        match text {
            Some(t) => if trim(t@).len() > 0 {
                r matches Some(k) && k@ == t@
            } else {
                r is None
            },
            None => r is None,
        },
{
    match text {
        Some(t) => if is_blank(t.as_str()) {
            None
        } else {
            Some(t)
        },
        None => None,
    }
}

/// The text that `String::from_utf16_lossy` decodes from UTF-16 code units.
pub uninterp spec fn utf16_lossy(units: Seq<u16>) -> Seq<char>;

/// `String::from_utf16_lossy`: the code units decoded as UTF-16, each invalid
/// unit replaced by U+FFFD. The contract names the text; it claims nothing
/// else of it.
#[verifier::external_body]
fn decode_utf16_lossy(units: &[u16]) -> (r: String)
    ensures
        r@ == utf16_lossy(units@),
{
    String::from_utf16_lossy(units)
}

/// The code units before the first NUL, or all of them.
pub open spec fn before_nul(units: Seq<u16>) -> Seq<u16> {
    match crate::text::first_occurrence(units, seq![0u16]) {
        Some(i) => units.take(i),
        None => units,
    }
}

/// The text of the clipboard's UTF-16 contents, which end at the first NUL.
pub fn clipboard_units_text(units: &[u16]) -> (r: String)
    ensures
        r@ == utf16_lossy(before_nul(units@)),
{
    let mut end: usize = 0;
    while end < units.len() && units[end] != 0
        invariant
            end <= units@.len(),
            forall|j: int| 0 <= j < end ==> units@[j] != 0u16,
        decreases units@.len() - end,
    {
        end = end + 1;
    }
    proof {
        assert forall|j: int| 0 <= j < end implies !crate::text::occurs_at(units@, seq![0u16], j) by {
            assert(units@.subrange(j, j + 1)[0] == units@[j]);
        }
        if end < units@.len() {
            assert(units@.subrange(end as int, end + 1) =~= seq![0u16]);
            crate::text::lemma_first_occurrence(units@, seq![0u16], end as int);
        } else {
            assert forall|j: int| !crate::text::occurs_at(units@, seq![0u16], j) by {
                if 0 <= j && j + 1 <= units@.len() {
                    assert(units@.subrange(j, j + 1)[0] == units@[j]);
                }
            }
            crate::text::lemma_no_occurrence(units@, seq![0u16]);
            assert(units@.take(end as int) == units@);
        }
    }
    let mut kept: Vec<u16> = Vec::new();
    let mut i: usize = 0;
    while i < end
        invariant
            end <= units@.len(),
            i <= end,
            kept@ == units@.take(i as int),
        decreases end - i,
    {
        kept.push(units[i]);
        i = i + 1;
        assert(units@.take(i as int) == units@.take(i - 1 as int).push(units@[i - 1]));
    }
    decode_utf16_lossy(kept.as_slice())
}

} // verus!
