//! Display widths of text on the terminal grid, as `unicode-width` measures
//! them.
use vstd::prelude::*;
use crate::text;

verus! {

/// The columns `unicode_width::UnicodeWidthStr::width` gives a text.
pub uninterp spec fn display_width(s: Seq<char>) -> usize;

/// Every character is printable ASCII, from the space to `~`.
pub open spec fn printable_ascii(s: Seq<char>) -> bool {
    forall|i: int| 0 <= i < s.len() ==> ' ' <= #[trigger] s[i] && s[i] <= '~'
}

/// `UnicodeWidthStr::width`: a fixed function of the text, in which each
/// printable ASCII character takes one column.
#[verifier::external_body]
fn str_width(s: &str) -> (r: usize)
    ensures
        r == display_width(s@),
        printable_ascii(s@) ==> r == s@.len(),
{
    unicode_width::UnicodeWidthStr::width(s)
}

/// The columns a text takes, at most `u16::MAX`.
pub open spec fn display_width_u16_spec(s: Seq<char>) -> u16 {
    if display_width(s) > u16::MAX {
        u16::MAX
    } else {
        display_width(s) as u16
    }
}

pub fn display_width_u16(s: &str) -> (r: u16)
    ensures
        r == display_width_u16_spec(s@),
        printable_ascii(s@) && s@.len() <= u16::MAX ==> r == s@.len(),
{
    let w = str_width(s);
    if w > 65535 {
        u16::MAX
    } else {
        w as u16
    }
}

/// What `unicode_width::UnicodeWidthChar::width` gives a character: its
/// columns, or nothing for a control character.
pub uninterp spec fn char_width(c: char) -> Option<usize>;

/// `UnicodeWidthChar::width`: nothing for the control characters below the
/// space and from U+007F to U+009F, one column for printable ASCII, and at
/// most three columns for any character from U+00A0 on. Which width a
/// character beyond ASCII has is left to the name.
#[verifier::external_body]
fn unicode_char_width(c: char) -> (r: Option<usize>)
    ensures
        r == char_width(c),
        (c < ' ' || ('\u{7f}' <= c && c < '\u{a0}')) ==> r is None,
        (' ' <= c && c <= '~') ==> r == Some(1usize),
        c >= '\u{a0}' ==> r is Some && r->0 <= 3,
{
    unicode_width::UnicodeWidthChar::width(c)
}

/// The columns a character is counted as when text is cut to fit: its width,
/// or none for a control character.
pub open spec fn char_columns(c: char) -> int {
    match char_width(c) {
        Some(w) => w as int,
        None => 0,
    }
}

/// The columns of a text, character by character.
pub open spec fn columns(s: Seq<char>) -> int
    decreases s.len(),
{
    if s.len() == 0 {
        0
    } else {
        columns(s.drop_last()) + char_columns(s.last())
    }
}

/// A longer start of a text takes at least as many columns.
pub proof fn lemma_columns_monotone(s: Seq<char>, a: int, b: int)
    requires
        0 <= a <= b <= s.len(),
    ensures
        columns(s.take(a)) <= columns(s.take(b)),
    decreases b - a,
{
    if a < b {
        assert(s.take(b).drop_last() =~= s.take(b - 1));
        assert(char_columns(s.take(b).last()) >= 0);
        lemma_columns_monotone(s, a, b - 1);
    }
}

/// The longest start of `text` that fits in `width` columns, control
/// characters counting none.
pub fn truncate_end(text: &str, width: usize) -> (r: String)
    ensures
        r@.len() <= text@.len(),
        r@ == text@.take(r@.len() as int),
        columns(r@) <= width,
        forall|m: int| r@.len() < m <= text@.len() ==> columns(#[trigger] text@.take(m)) > width,
{
    let chars = text::chars_of(text);
    let mut used: usize = 0;
    let mut k: usize = 0;
    assert(chars@.take(0) =~= Seq::<char>::empty());
    while k < chars.len()
        invariant
            k <= chars.len(),
            used == columns(chars@.take(k as int)),
            used <= width,
        ensures
            k <= chars.len(),
            used == columns(chars@.take(k as int)),
            used <= width,
            k < chars.len() ==> columns(chars@.take(k + 1)) > width,
        decreases chars.len() - k,
    {
        let c = chars[k];
        let w: usize = match unicode_char_width(c) {
            Some(w) => w,
            None => 0,
        };
        assert(chars@.take(k + 1).drop_last() =~= chars@.take(k as int));
        assert(chars@.take(k + 1).last() == c);
        if w > width - used {
            break;
        }
        used = used + w;
        k = k + 1;
    }
    proof {
        assert forall|m: int| k < m <= chars@.len() implies columns(#[trigger] chars@.take(m))
            > width by {
            lemma_columns_monotone(chars@, k + 1, m);
        }
    }
    let out = text::slice_chars(&chars, 0, k);
    assert(out@ =~= chars@.take(k as int));
    text::string_from_chars(out.as_slice())
}

} // verus!
