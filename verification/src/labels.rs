//! Texts cut to fit where they are shown or sent.

use vstd::prelude::*;
use vstd::slice::slice_subrange;

use crate::text::{chars_of, extend_text, text_of};

verus! {

/// How many bytes a character takes in UTF-8.
pub open spec fn utf8_width(c: char) -> int {
    let n = c as u32;
    if n < 0x80 {
        1
    } else if n < 0x800 {
        2
    } else if n < 0x10000 {
        3
    } else {
        4
    }
}

/// How many bytes the first `n` characters of a text take in UTF-8.
pub open spec fn byte_offset(s: Seq<char>, n: int) -> int
    decreases n,
{
    if n <= 0 {
        0
    } else {
        byte_offset(s, n - 1) + utf8_width(s[n - 1])
    }
}

/// Whether a text for a menu is cut at a character: it stands a hundred bytes
/// in or more, or it ends a line or a sentence.
pub open spec fn cuts_menu_text(s: Seq<char>, at: int) -> bool {
    byte_offset(s, at) >= 100 || s[at] == '\n' || s[at] == '\u{3002}'
}

/// The first character from `from` on at which a text for a menu is cut, or the
/// end of the text.
pub open spec fn menu_cut(s: Seq<char>, from: int) -> int
    decreases s.len() - from,
{
    if 0 <= from < s.len() && !cuts_menu_text(s, from) {
        menu_cut(s, from + 1)
    } else {
        from
    }
}

/// A text as a menu shows it. Where it is cut, the character there is kept
/// unless it is a line feed, and an ellipsis follows.
pub open spec fn menu_text(s: Seq<char>) -> Seq<char> {
    let cut = menu_cut(s, 0);
    if cut >= s.len() {
        s
    } else if s[cut] == '\n' {
        s.take(cut) + " \u{2026}"@
    } else {
        s.take(cut + 1) + " \u{2026}"@
    }
}

fn char_width(c: char) -> (width: usize)
    ensures
        width == utf8_width(c),
{
    let n: u32 = c as u32;
    if n < 0x80 {
        1
    } else if n < 0x800 {
        2
    } else if n < 0x10000 {
        3
    } else {
        4
    }
}

pub fn truncate_for_menu(s: &str) -> (text: String)
    ensures
        text@ == menu_text(s@),
{
    let chars = chars_of(s);
    let mut offset: usize = 0;
    let mut i: usize = 0;
    while i < chars.len()
        invariant
            i <= chars@.len(),
            chars@ == s@,
            offset < 104,
            offset == byte_offset(s@, i as int),
            menu_cut(s@, 0) == menu_cut(s@, i as int),
        decreases chars@.len() - i,
    {
        let c: char = chars[i];
        if offset >= 100 || c == '\n' || c == '\u{3002}' {
            let end: usize = if c == '\n' {
                i
            } else {
                i + 1
            };
            let mut text: Vec<char> = Vec::new();
            crate::text::extend(&mut text, slice_subrange(chars.as_slice(), 0, end));
            assert(text@ =~= s@.take(end as int));
            extend_text(&mut text, " \u{2026}");
            return text_of(text.as_slice());
        }
        offset += char_width(c);
        i += 1;
    }
    text_of(chars.as_slice())
}

/// The first characters of a text, at most so many.
pub open spec fn first_chars(s: Seq<char>, max_chars: int) -> Seq<char> {
    if s.len() > max_chars {
        s.take(max_chars)
    } else {
        s
    }
}

pub fn truncate_string(s: &str, max_chars: usize) -> (text: String)
    ensures
        text@ == first_chars(s@, max_chars as int),
{
    let chars = chars_of(s);
    if chars.len() > max_chars {
        text_of(slice_subrange(chars.as_slice(), 0, max_chars))
    } else {
        s.to_string()
    }
}

proof fn lemma_menu_cut(s: Seq<char>, from: int)
    requires
        0 <= from <= s.len(),
    ensures
        from <= menu_cut(s, from) <= s.len(),
        forall|k: int|
            from <= k < menu_cut(s, from) ==> #[trigger] s[k] != '\n' && s[k] != '\u{3002}'
                && byte_offset(s, k) < 100,
        menu_cut(s, from) < s.len() ==> s[menu_cut(s, from)] == '\n' || s[menu_cut(s, from)]
            == '\u{3002}' || byte_offset(s, menu_cut(s, from)) >= 100,
    decreases s.len() - from,
{
    if from < s.len() && !cuts_menu_text(s, from) {
        lemma_menu_cut(s, from + 1);
    }
}

/// A text in a menu is cut behind its first sentence, before its first line feed,
/// or where a hundred bytes are full, and then ends in an ellipsis. A text without
/// any of these stays.
pub proof fn law_texts_in_menus(s: Seq<char>, at: int)
    requires
        0 <= at <= s.len(),
        forall|k: int|
            0 <= k < at ==> #[trigger] s[k] != '\n' && s[k] != '\u{3002}' && byte_offset(s, k)
                < 100,
    ensures
        at == s.len() ==> menu_text(s) == s,
        at < s.len() && s[at] == '\n' ==> menu_text(s) == s.take(at) + " \u{2026}"@,
        at < s.len() && s[at] == '\u{3002}' ==> menu_text(s) == s.take(at + 1) + " \u{2026}"@,
        at < s.len() && s[at] != '\n' && byte_offset(s, at) >= 100 ==> menu_text(s) == s.take(at + 1)
            + " \u{2026}"@,
{
    lemma_menu_cut(s, 0);
    let cut = menu_cut(s, 0);
    if cut < at {
        assert(s[cut] != '\n' && s[cut] != '\u{3002}');
    }
    if at < cut {
        assert(s[at] != '\n' && s[at] != '\u{3002}');
    }
}

/// A text of ASCII counts a byte for each character.
pub proof fn law_bytes_of_ascii(s: Seq<char>, n: int)
    requires
        0 <= n <= s.len(),
        forall|k: int| 0 <= k < n ==> (#[trigger] s[k] as u32) < 128,
    ensures
        byte_offset(s, n) == n,
    decreases n,
{
    if n > 0 {
        law_bytes_of_ascii(s, n - 1);
        assert((s[n - 1] as u32) < 128);
    }
}

/// A text that is cut begins as it did and is no longer than it may be; one that is
/// short enough stays.
pub proof fn law_cut_texts(s: Seq<char>, max_chars: int)
    requires
        max_chars >= 0,
    ensures
        first_chars(s, max_chars).len() <= max_chars,
        first_chars(s, max_chars).is_prefix_of(s),
        s.len() <= max_chars ==> first_chars(s, max_chars) == s,
        s.len() > max_chars ==> first_chars(s, max_chars).len() == max_chars,
{
    assert(s.take(s.len() as int) =~= s);
}

} // verus!
