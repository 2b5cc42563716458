//! URLs of repositories and files.

use vstd::prelude::*;
use vstd::slice::slice_subrange;
use vstd::utf8::{
    decode_utf8, encode_scalar, encode_utf8, encode_utf8_decode_utf8, encode_utf8_valid_utf8,
    has_width_1_encoding, valid_utf8,
};

use crate::questionnaire::round_trip::lemma_pieces_push;
use crate::text::{
    chars_of, ends_with, ends_with_text, extend, extend_text, next_char, pieces, pieces_of,
    run_start, seek_char, starts_with, starts_with_text, text_model, text_of, trim_end_of,
    trimmed_end_of, CharClass,
};

verus! {

/// `String::from_utf8`: a text is made of bytes if and only if they are valid
/// UTF-8, and it is the text that they encode.
#[verifier::external_body]
pub(crate) fn utf8_text(bytes: Vec<u8>) -> (text: Option<String>)
    ensures
        match text {
            Some(text) => valid_utf8(bytes@) && text@ == decode_utf8(bytes@),
            None => !valid_utf8(bytes@),
        },
{
    String::from_utf8(bytes).ok()
}

/// A URL without `.git` and without slashes at its end.
pub open spec fn bare_url(url: Seq<char>) -> Seq<char> {
    trim_end_of(
        if ends_with(url, ".git"@) {
            url.take(url.len() - 4)
        } else {
            url
        },
        CharClass::Exactly('/'),
    )
}

fn strip_url(url: &[char]) -> (bare: &[char])
    ensures
        bare@ == bare_url(url@),
{
    proof {
        reveal_strlit(".git");
    }
    let kept = if ends_with_text(url, ".git") {
        slice_subrange(url, 0, url.len() - 4)
    } else {
        url
    };
    trimmed_end_of(kept, CharClass::Exactly('/'))
}

/// The name of a repository: what stands behind the last slash of its URL.
pub open spec fn repo_name(url: Seq<char>) -> Option<Seq<char>> {
    let name = pieces_of(bare_url(url), '/').last();
    if name.len() > 0 {
        Some(name)
    } else {
        None
    }
}

pub fn repo_name_from_url(url: &str) -> (name: Option<String>)
    ensures
        match name {
            Some(name) => repo_name(url@) == Some(name@),
            None => repo_name(url@) is None,
        },
{
    let chars = chars_of(url);
    let bare = strip_url(chars.as_slice());
    let parts = pieces(bare, '/');
    let ghost views = pieces_of(bare@, '/');
    assert(views.len() == parts@.len());
    proof {
        lemma_has_piece(bare@, 0, '/');
    }
    let last = parts[parts.len() - 1].as_slice();
    assert(last@ == views.last());
    if last.len() > 0 {
        Some(text_of(last))
    } else {
        None
    }
}

/// A text is parted into at least one piece.
pub proof fn lemma_has_piece(s: Seq<char>, from: int, separator: char)
    requires
        0 <= from <= s.len(),
    ensures
        crate::text::pieces_from(s, from, separator).len() > 0,
{
    crate::text::lemma_next_char(s, from, separator);
}

/// The URL of a repository for a browser, where its remote has one.
pub open spec fn browser_url(url: Seq<char>) -> Option<Seq<char>> {
    let bare = bare_url(url);
    if starts_with(bare, "https://"@) || starts_with(bare, "http://"@) {
        Some(bare)
    } else if starts_with(bare, "git@"@) {
        let rest = bare.skip(4);
        let colon = next_char(rest, 0, ':');
        Some(
            "https://"@ + if colon < rest.len() {
                rest.take(colon) + "/"@ + rest.skip(colon + 1)
            } else {
                rest
            },
        )
    } else {
        None
    }
}

pub fn remote_url_to_browser_url(url: &str) -> (browser: Option<String>)
    ensures
        match browser {
            Some(browser) => browser_url(url@) == Some(browser@),
            None => browser_url(url@) is None,
        },
{
    let chars = chars_of(url);
    let bare = strip_url(chars.as_slice());
    proof {
        reveal_strlit("git@");
    }
    if starts_with_text(bare, "https://") || starts_with_text(bare, "http://") {
        Some(text_of(bare))
    } else if starts_with_text(bare, "git@") {
        let rest = slice_subrange(bare, 4, bare.len());
        assert(rest@ =~= bare@.skip(4));
        let colon = seek_char(rest, 0, ':');
        let mut url = chars_of("https://");
        extend(&mut url, slice_subrange(rest, 0, colon));
        if colon < rest.len() {
            extend_text(&mut url, "/");
            extend(&mut url, slice_subrange(rest, colon + 1, rest.len()));
            assert(rest@.subrange(colon + 1, rest@.len() as int) =~= rest@.skip(colon + 1));
            assert(rest@.subrange(0, colon as int) =~= rest@.take(colon as int));
            assert(url@ =~= "https://"@ + (rest@.take(colon as int) + "/"@ + rest@.skip(colon + 1)));
        } else {
            assert(rest@.subrange(0, colon as int) =~= rest@);
        }
        Some(text_of(url.as_slice()))
    } else {
        None
    }
}

/// The number that a hexadecimal digit stands for.
pub open spec fn hex_value(byte: u8) -> Option<u8> {
    if 48 <= byte <= 57 {
        Some((byte - 48) as u8)
    } else if 97 <= byte <= 102 {
        Some((byte - 87) as u8)
    } else if 65 <= byte <= 70 {
        Some((byte - 55) as u8)
    } else {
        None
    }
}

pub fn hex_val(byte: u8) -> (value: Option<u8>)
    ensures
        value == hex_value(byte),
{
    if 48 <= byte && byte <= 57 {
        Some(byte - 48)
    } else if 97 <= byte && byte <= 102 {
        Some(byte - 87)
    } else if 65 <= byte && byte <= 70 {
        Some(byte - 55)
    } else {
        None
    }
}

/// The byte at `index`, or zero behind the end.
pub open spec fn byte_at(bytes: Seq<u8>, index: int) -> u8 {
    if index < bytes.len() {
        bytes[index]
    } else {
        0
    }
}

/// Bytes from `from` on with each percent sign and two hexadecimal digits
/// exchanged for the byte they stand for. Where other bytes follow a percent
/// sign the three are kept, with zeros for what is missing.
pub open spec fn percent_decoded(bytes: Seq<u8>, from: int) -> Seq<u8>
    decreases bytes.len() + 3 - from,
{
    if from < 0 || from >= bytes.len() {
        seq![]
    } else if bytes[from] == 37 {
        let high = byte_at(bytes, from + 1);
        let low = byte_at(bytes, from + 2);
        let decoded = match (hex_value(high), hex_value(low)) {
            (Some(h), Some(l)) => seq![(h * 16 + l) as u8],
            _ => seq![37u8, high, low],
        };
        decoded + percent_decoded(bytes, from + 3)
    } else {
        seq![bytes[from]] + percent_decoded(bytes, from + 1)
    }
}

/// What a percent-encoded text stands for; the text itself where that is no
/// text.
pub open spec fn percent_text(input: Seq<char>) -> Seq<char> {
    let bytes = percent_decoded(encode_utf8(input), 0);
    if valid_utf8(bytes) {
        decode_utf8(bytes)
    } else {
        input
    }
}

pub fn percent_decode(input: &str) -> (output: String)
    ensures
        output@ == percent_text(input@),
{
    let bytes = input.as_bytes();
    let ghost source = bytes@;
    let mut output: Vec<u8> = Vec::new();
    let mut i: usize = 0;
    let length = bytes.len();
    while i < length
        invariant
            i <= length,
            length == bytes@.len(),
            source == bytes@,
            output@ + percent_decoded(source, i as int) =~= percent_decoded(source, 0),
        decreases length - i,
    {
        let ghost before = output@;
        let byte: u8 = bytes[i];
        if byte == 37 {
            let high: u8 = if i + 1 < length {
                bytes[i + 1]
            } else {
                0
            };
            let low: u8 = if length - i > 2 {
                bytes[i + 2]
            } else {
                0
            };
            match (hex_val(high), hex_val(low)) {
                (Some(h), Some(l)) => {
                    output.push(h * 16 + l);
                    assert(output@ =~= before + seq![(h * 16 + l) as u8]);
                },
                _ => {
                    output.push(37);
                    output.push(high);
                    output.push(low);
                    assert(output@ =~= before + seq![37u8, high, low]);
                },
            }
            if length - i > 3 {
                i += 3;
            } else {
                assert(percent_decoded(source, i + 3) =~= seq![]);
                i = length;
                assert(percent_decoded(source, i as int) =~= seq![]);
            }
        } else {
            output.push(byte);
            assert(output@ =~= before + seq![byte]);
            i += 1;
        }
    }
    assert(output@ =~= percent_decoded(source, 0));
    match utf8_text(output) {
        Some(text) => text,
        None => input.to_string(),
    }
}

proof fn lemma_nothing_encoded(bytes: Seq<u8>, from: int)
    requires
        0 <= from <= bytes.len(),
        forall|i: int| 0 <= i < bytes.len() ==> #[trigger] bytes[i] != 37,
    ensures
        percent_decoded(bytes, from) == bytes.skip(from),
    decreases bytes.len() - from,
{
    if from < bytes.len() {
        lemma_nothing_encoded(bytes, from + 1);
        assert(percent_decoded(bytes, from) =~= bytes.skip(from));
    } else {
        assert(bytes.skip(from) =~= seq![]);
    }
}

/// The bytes of a character other than the percent sign are no percent signs.
proof fn lemma_char_bytes(c: char)
    requires
        c != '%',
    ensures
        forall|i: int|
            0 <= i < encode_scalar(c as u32).len() ==> #[trigger] encode_scalar(c as u32)[i] != 37,
{
    let scalar = c as u32;
    assert(scalar != 37);
    if has_width_1_encoding(scalar) {
        assert((scalar & 0x7F) as u8 != 37) by (bit_vector)
            requires
                scalar <= 0x7F,
                scalar != 37,
        ;
    }
    assert(0xC0 | ((scalar >> 6) & 0x1F) as u8 != 37) by (bit_vector);
    assert(0xE0 | ((scalar >> 12) & 0x0F) as u8 != 37) by (bit_vector);
    assert(0xF0 | ((scalar >> 18) & 0x7) as u8 != 37) by (bit_vector);
    assert(0x80 | (scalar & 0x3F) as u8 != 37) by (bit_vector);
    assert(0x80 | ((scalar >> 6) & 0x3F) as u8 != 37) by (bit_vector);
    assert(0x80 | ((scalar >> 12) & 0x3F) as u8 != 37) by (bit_vector);
}

proof fn lemma_text_bytes(text: Seq<char>)
    requires
        forall|i: int| 0 <= i < text.len() ==> #[trigger] text[i] != '%',
    ensures
        forall|i: int| 0 <= i < encode_utf8(text).len() ==> #[trigger] encode_utf8(text)[i] != 37,
    decreases text.len(),
{
    if text.len() > 0 {
        let rest = text.drop_first();
        assert forall|i: int| 0 <= i < rest.len() implies #[trigger] rest[i] != '%' by {
            assert(rest[i] == text[i + 1]);
        }
        lemma_text_bytes(rest);
        let first = encode_scalar(text[0] as u32);
        lemma_char_bytes(text[0]);
        let all = encode_utf8(text);
        assert(all == first + encode_utf8(rest));
        assert forall|i: int| 0 <= i < all.len() implies #[trigger] all[i] != 37 by {
            if i < first.len() {
                assert(all[i] == first[i]);
            } else {
                assert(all[i] == encode_utf8(rest)[i - first.len()]);
            }
        }
    }
}

/// A text without percent signs stands for itself.
pub proof fn law_plain_text_is_kept(input: Seq<char>)
    requires
        forall|i: int| 0 <= i < input.len() ==> #[trigger] input[i] != '%',
    ensures
        percent_text(input) == input,
{
    let bytes = encode_utf8(input);
    lemma_text_bytes(input);
    lemma_nothing_encoded(bytes, 0);
    assert(bytes.skip(0) =~= bytes);
    encode_utf8_valid_utf8(input);
    encode_utf8_decode_utf8(input);
}

/// The path of a file that is opened by its URL; none for other URLs.
pub fn opened_path(url: &str) -> (path: Option<String>)
    ensures
        text_model(path) == if starts_with(url@, "file://"@) {
            Some(percent_text(url@.skip(7)))
        } else {
            None
        },
{
    let chars = chars_of(url);
    if !starts_with_text(chars.as_slice(), "file://") {
        return None;
    }
    proof {
        reveal_strlit("file://");
        assert("file://"@.len() == 7);
    }
    let rest = slice_subrange(chars.as_slice(), 7, chars.len());
    assert(rest@ =~= url@.skip(7));
    let rest = text_of(rest);
    Some(percent_decode(rest.as_str()))
}

/// The repository of a remote is called after the last part of its address; `.git`
/// at the end is no part of the name.
pub proof fn law_names_of_repositories(front: Seq<char>, name: Seq<char>)
    requires
        name.len() > 0,
        !name.contains('/'),
        !ends_with(front + seq!['/'] + name, ".git"@),
    ensures
        repo_name(front + seq!['/'] + name) == Some(name),
        repo_name(front + seq!['/'] + name + ".git"@) == Some(name),
{
    let url = front + seq!['/'] + name;
    assert(url.skip(url.len() - name.len()) =~= name);
    lemma_bare_url(url, name);
    assert forall|k: int| 0 <= k < name.len() implies #[trigger] name[k] != '/' by {
        assert(name.contains(name[k]));
    }
    lemma_pieces_push(front, name, '/', 0);
}

proof fn lemma_bare_url(url: Seq<char>, name: Seq<char>)
    requires
        name.len() > 0,
        name.len() <= url.len(),
        url.skip(url.len() - name.len()) == name,
        !name.contains('/'),
        !ends_with(url, ".git"@),
    ensures
        bare_url(url) == url,
        bare_url(url + ".git"@) == url,
{
    reveal_strlit(".git");
    let n = url.len() as int;
    assert(name.contains(name[name.len() - 1]));
    assert(url[n - 1] == url.skip(n - name.len())[name.len() - 1]);
    assert(run_start(url, n, CharClass::Exactly('/')) == n);
    assert(url.take(n) =~= url);
    let dotted = url + ".git"@;
    assert(dotted.subrange(n, n + 4) =~= ".git"@);
    assert(dotted.take(n) =~= url);
}

/// A remote over HTTPS is shown at its own address, and one over SSH at the same
/// host and path over HTTPS.
pub proof fn law_addresses_of_remotes(host: Seq<char>, path: Seq<char>)
    requires
        path.len() > 0,
        !host.contains(':'),
        path[path.len() - 1] != '/',
        !ends_with("git@"@ + host + seq![':'] + path, ".git"@),
    ensures
        browser_url("git@"@ + host + seq![':'] + path) == Some("https://"@ + (host + "/"@ + path)),
        browser_url("git@"@ + host + seq![':'] + path + ".git"@) == Some(
            "https://"@ + (host + "/"@ + path),
        ),
{
    reveal_strlit("git@");
    reveal_strlit(".git");
    reveal_strlit("https://");
    reveal_strlit("http://");
    let url = "git@"@ + host + seq![':'] + path;
    let n = url.len() as int;
    assert(url[n - 1] == path[path.len() - 1]);
    assert(run_start(url, n, CharClass::Exactly('/')) == n);
    assert(url.take(n) =~= url);
    let dotted = url + ".git"@;
    assert(dotted.subrange(n, n + 4) =~= ".git"@);
    assert(dotted.take(n) =~= url);
    assert(bare_url(url) == url && bare_url(dotted) == url);
    assert(url[0] == 'g');
    if starts_with(url, "https://"@) {
        assert(url.subrange(0, 8)[0] == 'h');
    }
    if starts_with(url, "http://"@) {
        assert(url.subrange(0, 7)[0] == 'h');
    }
    assert(url.subrange(0, 4) =~= "git@"@);
    let rest = url.skip(4);
    assert(rest =~= host + seq![':'] + path);
    assert forall|k: int| 0 <= k < host.len() implies #[trigger] rest[k] != ':' by {
        assert(rest[k] == host[k]);
        assert(host.contains(host[k]));
    }
    assert(rest[host.len() as int] == ':');
    crate::text::lemma_next_char_is(rest, 0, ':', host.len() as int);
    assert(rest.take(host.len() as int) =~= host);
    assert(rest.skip((host.len() + 1) as int) =~= path);
}

/// A remote over HTTPS is shown at its own address, without `.git`.
pub proof fn law_addresses_over_https(rest: Seq<char>)
    requires
        rest.len() > 0,
        rest[rest.len() - 1] != '/',
        !ends_with("https://"@ + rest, ".git"@),
    ensures
        browser_url("https://"@ + rest) == Some("https://"@ + rest),
        browser_url("https://"@ + rest + ".git"@) == Some("https://"@ + rest),
{
    reveal_strlit(".git");
    reveal_strlit("https://");
    let url = "https://"@ + rest;
    let n = url.len() as int;
    assert(url[n - 1] == rest[rest.len() - 1]);
    assert(run_start(url, n, CharClass::Exactly('/')) == n);
    assert(url.take(n) =~= url);
    let dotted = url + ".git"@;
    assert(dotted.subrange(n, n + 4) =~= ".git"@);
    assert(dotted.take(n) =~= url);
    assert(url.subrange(0, 8) =~= "https://"@);
}

/// A hexadecimal digit stands for its value, in either case.
pub proof fn law_hexadecimal_digits(value: u8)
    requires
        value < 16,
    ensures
        value < 10 ==> hex_value((48 + value) as u8) == Some(value),
        value >= 10 ==> hex_value((87 + value) as u8) == Some(value) && hex_value(
            (55 + value) as u8,
        ) == Some(value),
        hex_value(37) is None && hex_value(47) is None && hex_value(103) is None,
{
}

/// A percent sign and two hexadecimal digits stand for a byte, and every other byte
/// for itself.
pub proof fn law_percent_signs(bytes: Seq<u8>, from: int)
    requires
        0 <= from < bytes.len(),
    ensures
        bytes[from] != 37 ==> percent_decoded(bytes, from) == seq![bytes[from]] + percent_decoded(
            bytes,
            from + 1,
        ),
        bytes[from] == 37 && from + 2 < bytes.len() && hex_value(bytes[from + 1]) is Some
            && hex_value(bytes[from + 2]) is Some ==> percent_decoded(bytes, from) == seq![
            (hex_value(bytes[from + 1])->0 * 16 + hex_value(bytes[from + 2])->0) as u8,
        ] + percent_decoded(bytes, from + 3),
{
}

} // verus!
