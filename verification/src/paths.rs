//! Unix paths as text: their components, and what compares by them.
//!
//! Two paths are the same where their components are, whatever slashes and
//! dots they are written with.

use vstd::prelude::*;

use crate::questionnaire::round_trip::lemma_pieces_push;
use crate::text::{chars_of, copied, is_text, pieces, pieces_of, spelled, text_of};

verus! {

/// Whether the piece at `index` between slashes is a component. Empty pieces
/// are none, and a dot is one only at the start of a relative path.
pub open spec fn is_component(pieces: Seq<Seq<char>>, index: int) -> bool {
    pieces[index].len() > 0 && (pieces[index] != "."@ || index == 0)
}

/// The components among the first `n` pieces.
pub open spec fn components_before(pieces: Seq<Seq<char>>, n: int) -> Seq<Seq<char>>
    decreases n,
{
    if n <= 0 {
        seq![]
    } else if is_component(pieces, n - 1) {
        components_before(pieces, n - 1).push(pieces[n - 1])
    } else {
        components_before(pieces, n - 1)
    }
}

/// The components of a path. The root of an absolute path is a slash.
pub open spec fn components_of(path: Seq<char>) -> Seq<Seq<char>> {
    let pieces = pieces_of(path, '/');
    let names = components_before(pieces, pieces.len() as int);
    if path.len() > 0 && path[0] == '/' {
        seq!["/"@] + names
    } else {
        names
    }
}

/// Whether a path lies at or below another.
pub open spec fn is_under(path: Seq<char>, base: Seq<char>) -> bool {
    let parts = components_of(path);
    let prefix = components_of(base);
    prefix.len() <= parts.len() && parts.take(prefix.len() as int) == prefix
}

/// The last component of a path, where it is a name.
pub open spec fn file_name_of(path: Seq<char>) -> Option<Seq<char>> {
    let parts = components_of(path);
    if parts.len() > 0 && parts.last() != "/"@ && parts.last() != "."@ && parts.last() != ".."@ {
        Some(parts.last())
    } else {
        None
    }
}

pub fn components(path: &str) -> (parts: Vec<Vec<char>>)
    ensures
        spelled(parts@) == components_of(path@),
{
    let chars = chars_of(path);
    let all = pieces(chars.as_slice(), '/');
    let ghost views = pieces_of(path@, '/');
    let mut parts: Vec<Vec<char>> = Vec::new();
    let absolute = chars.len() > 0 && chars[0] == '/';
    let ghost root: Seq<Seq<char>> = if absolute {
        seq!["/"@]
    } else {
        seq![]
    };
    if absolute {
        parts.push(chars_of("/"));
    }
    assert(spelled(parts@) =~= root);
    let mut i: usize = 0;
    while i < all.len()
        invariant
            i <= all@.len(),
            views == spelled(all@),
            spelled(parts@) =~= root + components_before(views, i as int),
        decreases all@.len() - i,
    {
        let piece = all[i].as_slice();
        assert(views[i as int] == piece@);
        let ghost before = spelled(parts@);
        if piece.len() > 0 && (!is_text(piece, ".") || i == 0) {
            let part = copied(piece, 0, piece.len());
            assert(part@ =~= piece@);
            parts.push(part);
            assert(spelled(parts@) =~= before.push(piece@));
        }
        i += 1;
    }
    assert(spelled(parts@) =~= components_of(path@));
    parts
}

/// Whether the first components of one list are those of another.
fn has_prefix(parts: &Vec<Vec<char>>, prefix: &Vec<Vec<char>>) -> (b: bool)
    ensures
        b == (prefix@.len() <= parts@.len() && spelled(parts@).take(prefix@.len() as int)
            == spelled(prefix@)),
{
    if prefix.len() > parts.len() {
        return false;
    }
    let mut i: usize = 0;
    while i < prefix.len()
        invariant
            i <= prefix@.len() <= parts@.len(),
            forall|k: int| 0 <= k < i ==> #[trigger] spelled(parts@)[k] == spelled(prefix@)[k],
        decreases prefix@.len() - i,
    {
        let text = text_of(prefix[i].as_slice());
        if !is_text(parts[i].as_slice(), text.as_str()) {
            assert(spelled(parts@).take(prefix@.len() as int)[i as int] != spelled(
                prefix@,
            )[i as int]);
            return false;
        }
        i += 1;
    }
    assert(spelled(parts@).take(prefix@.len() as int) =~= spelled(prefix@));
    true
}

/// Whether two paths have the same components.
pub fn same_path(a: &str, b: &str) -> (same: bool)
    ensures
        same == (components_of(a@) == components_of(b@)),
{
    let parts = components(a);
    let others = components(b);
    assert(spelled(parts@).len() == parts@.len());
    assert(spelled(others@).len() == others@.len());
    if parts.len() != others.len() {
        return false;
    }
    assert(spelled(parts@).take(parts@.len() as int) =~= spelled(parts@));
    has_prefix(&parts, &others)
}

pub fn starts_with_path(path: &str, base: &str) -> (b: bool)
    ensures
        b == is_under(path@, base@),
{
    let parts = components(path);
    let prefix = components(base);
    assert(spelled(parts@).len() == parts@.len());
    assert(spelled(prefix@).len() == prefix@.len());
    has_prefix(&parts, &prefix)
}

pub fn file_name(path: &str) -> (name: Option<String>)
    ensures
        match name {
            Some(name) => file_name_of(path@) == Some(name@),
            None => file_name_of(path@) is None,
        },
{
    let parts = components(path);
    let ghost views = components_of(path@);
    assert(views.len() == parts@.len());
    if parts.len() == 0 {
        return None;
    }
    let last = parts[parts.len() - 1].as_slice();
    assert(last@ == views.last());
    if is_text(last, "/") || is_text(last, ".") || is_text(last, "..") {
        None
    } else {
        Some(text_of(last))
    }
}

proof fn lemma_components_of_prefix(a: Seq<Seq<char>>, b: Seq<Seq<char>>, n: int)
    requires
        0 <= n <= a.len(),
        n <= b.len(),
        forall|i: int| 0 <= i < n ==> #[trigger] a[i] == b[i],
    ensures
        components_before(a, n) == components_before(b, n),
    decreases n,
{
    if n > 0 {
        lemma_components_of_prefix(a, b, n - 1);
        assert(a[n - 1] == b[n - 1]);
    }
}

/// A name behind a path and a slash is its last component: it lies under the path,
/// and the file is called so.
pub proof fn law_names_in_directories(path: Seq<char>, name: Seq<char>)
    requires
        path.len() > 0,
        name.len() > 0,
        !name.contains('/'),
        name != "."@,
    ensures
        components_of(path + seq!['/'] + name) == components_of(path).push(name),
        is_under(path + seq!['/'] + name, path),
        !is_under(path, path + seq!['/'] + name),
        name != ".."@ ==> file_name_of(path + seq!['/'] + name) == Some(name),
        name == ".."@ ==> file_name_of(path + seq!['/'] + name) is None,
{
    let whole = path + seq!['/'] + name;
    assert forall|k: int| 0 <= k < name.len() implies #[trigger] name[k] != '/' by {
        assert(name.contains(name[k]));
    }
    lemma_pieces_push(path, name, '/', 0);
    let pieces = pieces_of(path, '/');
    let more = pieces_of(whole, '/');
    assert(more == pieces.push(name));
    crate::text::lemma_next_char(path, 0, '/');
    assert(pieces.len() > 0);
    lemma_components_of_prefix(pieces, more, pieces.len() as int);
    assert(whole[0] == path[0]);
    assert(components_of(whole) =~= components_of(path).push(name));
    assert(components_of(whole).take(components_of(path).len() as int) =~= components_of(path));
    reveal_strlit("/");
    if name == "/"@ {
        assert(name[0] == '/');
    }
}

/// Directories with different names in one directory do not lie under each other,
/// however alike their names begin.
pub proof fn law_siblings(path: Seq<char>, a: Seq<char>, b: Seq<char>)
    requires
        path.len() > 0,
        a.len() > 0 && b.len() > 0,
        !a.contains('/') && !b.contains('/'),
        a != "."@ && b != "."@,
        a != b,
    ensures
        !is_under(path + seq!['/'] + a, path + seq!['/'] + b),
{
    law_names_in_directories(path, a);
    law_names_in_directories(path, b);
    let parts = components_of(path + seq!['/'] + a);
    let prefix = components_of(path + seq!['/'] + b);
    let n = components_of(path).len() as int;
    if is_under(path + seq!['/'] + a, path + seq!['/'] + b) {
        assert(parts.take(n + 1)[n] == prefix[n]);
    }
}

/// A path lies under itself, and under what a path lies under that it lies under.
pub proof fn law_under(a: Seq<char>, b: Seq<char>, c: Seq<char>)
    ensures
        is_under(a, a),
        is_under(a, b) && is_under(b, c) ==> is_under(a, c),
        is_under(a, b) && is_under(b, a) ==> components_of(a) == components_of(b),
{
    let x = components_of(a);
    let y = components_of(b);
    let z = components_of(c);
    assert(x.take(x.len() as int) =~= x);
    if is_under(a, b) && is_under(b, c) {
        assert(x.take(z.len() as int) =~= y.take(z.len() as int)) by {
            assert forall|i: int| 0 <= i < z.len() implies x[i] == y[i] by {
                assert(x.take(y.len() as int)[i] == y[i]);
            }
        }
    }
    if is_under(a, b) && is_under(b, a) {
        assert(x.take(y.len() as int) =~= x);
    }
}

} // verus!
