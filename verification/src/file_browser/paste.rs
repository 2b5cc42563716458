//! Where an entry is put when it is pasted.

use vstd::prelude::*;
use vstd::set_lib::{lemma_int_range, lemma_len_subset, set_int_range};

use crate::file_browser::tree::WorktreeEntry;
use crate::text::{
    chars_of, copied, decimal, decimal_chars, extend, extend_text, is_text, lemma_decimal_value,
    same_text, text_of,
};

verus! {

/// Where the last dot stands among the first `n` characters of a name, or -1.
pub open spec fn last_dot(name: Seq<char>, n: int) -> int
    decreases n,
{
    if n <= 0 {
        -1
    } else if name[n - 1] == '.' {
        n - 1
    } else {
        last_dot(name, n - 1)
    }
}

/// A name without its extension, and the extension: what follows the last dot,
/// unless nothing stands before it.
pub open spec fn split_name(name: Seq<char>) -> (Seq<char>, Option<Seq<char>>) {
    let dot = last_dot(name, name.len() as int);
    if dot <= 0 || name == ".."@ {
        (name, None)
    } else {
        (name.take(dot), Some(name.skip(dot + 1)))
    }
}

/// The parts of the name of a file; that of a directory is not parted.
pub open spec fn name_parts(name: Seq<char>, is_file: bool) -> (Seq<char>, Option<Seq<char>>) {
    if is_file {
        split_name(name)
    } else {
        (name, None)
    }
}

/// A path and a name below it.
pub open spec fn below(directory: Seq<char>, name: Seq<char>) -> Seq<char> {
    if directory.len() == 0 {
        name
    } else {
        directory + seq!['/'] + name
    }
}

/// What tells one copy from another.
pub open spec fn copy_mark(index: nat) -> Seq<char> {
    if index == 0 {
        seq![]
    } else {
        seq![' '] + decimal(index)
    }
}

/// The ending of a name.
pub open spec fn ending(extension: Option<Seq<char>>) -> Seq<char> {
    match extension {
        Some(extension) => seq!['.'] + extension,
        None => seq![],
    }
}

/// The name of a copy.
pub open spec fn copy_name(parts: (Seq<char>, Option<Seq<char>>), index: nat) -> Seq<char> {
    parts.0 + " copy"@ + copy_mark(index) + ending(parts.1)
}

pub open spec fn is_taken(entries: Seq<WorktreeEntry>, path: Seq<char>) -> bool {
    exists|i: int| 0 <= i < entries.len() && (#[trigger] entries[i]).path@ == path
}

/// The path of a copy.
pub open spec fn copy_path(
    directory: Seq<char>,
    parts: (Seq<char>, Option<Seq<char>>),
    index: nat,
) -> Seq<char> {
    below(directory, copy_name(parts, index))
}

/// Whether the copy with a number is the first one whose path is free.
pub open spec fn is_first_free(
    entries: Seq<WorktreeEntry>,
    directory: Seq<char>,
    parts: (Seq<char>, Option<Seq<char>>),
    index: nat,
) -> bool {
    &&& !is_taken(entries, copy_path(directory, parts, index))
    &&& forall|earlier: nat|
        earlier < index ==> is_taken(entries, #[trigger] copy_path(directory, parts, earlier))
}

/// Whether an entry is pasted at a path: under its own name where that is free,
/// else as the first copy that is.
pub open spec fn is_paste_path(
    entries: Seq<WorktreeEntry>,
    directory: Seq<char>,
    name: Seq<char>,
    is_file: bool,
    path: Seq<char>,
) -> bool {
    if !is_taken(entries, below(directory, name)) {
        path == below(directory, name)
    } else {
        exists|index: nat|
            is_first_free(entries, directory, name_parts(name, is_file), index) && path
                == #[trigger] copy_path(directory, name_parts(name, is_file), index)
    }
}

fn find_last_dot(name: &Vec<char>) -> (dot: Option<usize>)
    ensures
        match dot {
            Some(dot) => dot == last_dot(name@, name@.len() as int) && dot < name@.len(),
            None => last_dot(name@, name@.len() as int) == -1,
        },
{
    let mut n: usize = name.len();
    while n > 0
        invariant
            n <= name@.len(),
            last_dot(name@, name@.len() as int) == last_dot(name@, n as int),
        decreases n,
    {
        if name[n - 1] == '.' {
            return Some(n - 1);
        }
        n -= 1;
    }
    None
}

pub open spec fn parts_view(parts: (Vec<char>, Option<Vec<char>>)) -> (
    Seq<char>,
    Option<Seq<char>>,
) {
    (
        parts.0@,
        match parts.1 {
            Some(extension) => Some(extension@),
            None => None,
        },
    )
}

fn parted(name: Vec<char>, is_file: bool) -> (parts: (Vec<char>, Option<Vec<char>>))
    ensures
        parts_view(parts) == name_parts(name@, is_file),
{
    if is_file && !is_text(name.as_slice(), "..") {
        if let Some(dot) = find_last_dot(&name) {
            if dot > 0 {
                let length = name.len();
                let stem = copied(name.as_slice(), 0, dot);
                let extension = copied(name.as_slice(), dot + 1, length);
                assert(stem@ =~= name@.take(dot as int));
                assert(extension@ =~= name@.skip(dot + 1));
                return (stem, Some(extension));
            }
        }
    }
    (name, None)
}

fn join_below(directory: &str, name: &Vec<char>) -> (path: String)
    ensures
        path@ == below(directory@, name@),
{
    let mut chars = chars_of(directory);
    if chars.len() > 0 {
        chars.push('/');
    }
    extend(&mut chars, name.as_slice());
    assert(chars@ =~= below(directory@, name@));
    text_of(chars.as_slice())
}

fn find_taken(entries: &Vec<WorktreeEntry>, path: &str) -> (found: Option<usize>)
    ensures
        match found {
            Some(index) => index < entries@.len() && entries@[index as int].path@ == path@,
            None => !is_taken(entries@, path@),
        },
{
    let mut i: usize = 0;
    while i < entries.len()
        invariant
            i <= entries@.len(),
            forall|k: int| 0 <= k < i ==> (#[trigger] entries@[k]).path@ != path@,
        decreases entries@.len() - i,
    {
        if same_text(entries[i].path.as_str(), path) {
            return Some(i);
        }
        i += 1;
    }
    None
}

/// Two copies have different paths.
pub proof fn law_copies_differ(
    directory: Seq<char>,
    parts: (Seq<char>, Option<Seq<char>>),
    a: nat,
    b: nat,
)
    requires
        copy_path(directory, parts, a) == copy_path(directory, parts, b),
    ensures
        a == b,
{
    let head = if directory.len() == 0 {
        parts.0 + " copy"@
    } else {
        directory + seq!['/'] + (parts.0 + " copy"@)
    };
    let tail = ending(parts.1);
    assert(copy_path(directory, parts, a) =~= head + copy_mark(a) + tail);
    assert(copy_path(directory, parts, b) =~= head + copy_mark(b) + tail);
    let all_a = head + copy_mark(a) + tail;
    let all_b = head + copy_mark(b) + tail;
    assert(all_a.len() == all_b.len());
    assert(copy_mark(a) =~= all_a.subrange(
        head.len() as int,
        (head.len() + copy_mark(a).len()) as int,
    ));
    assert(copy_mark(b) =~= all_b.subrange(
        head.len() as int,
        (head.len() + copy_mark(b).len()) as int,
    ));
    lemma_decimal_value(a);
    lemma_decimal_value(b);
    if a > 0 && b > 0 {
        assert(copy_mark(a).skip(1) =~= decimal(a));
        assert(copy_mark(b).skip(1) =~= decimal(b));
    }
}

/// Places that are all different and lie below a bound are no more than the
/// bound.
proof fn lemma_places_fit(places: Seq<int>, bound: int)
    requires
        0 <= bound,
        forall|i: int| 0 <= i < places.len() ==> 0 <= #[trigger] places[i] < bound,
        places.no_duplicates(),
    ensures
        places.len() <= bound,
{
    places.unique_seq_to_set();
    let all = set_int_range(0, bound);
    lemma_int_range(0, bound);
    assert(places.to_set().subset_of(all));
    lemma_len_subset(places.to_set(), all);
}

/// Where an entry is pasted in a directory.
pub fn compute_paste_path(
    entries: &Vec<WorktreeEntry>,
    dest_dir: &str,
    file_name: &str,
    is_file: bool,
) -> (path: String)
    ensures
        is_paste_path(entries@, dest_dir@, file_name@, is_file, path@),
        !is_taken(entries@, path@),
{
    let name = chars_of(file_name);
    let candidate = join_below(dest_dir, &name);
    match find_taken(entries, candidate.as_str()) {
        None => {
            return candidate;
        },
        Some(_) => {},
    }
    let ghost wanted = name_parts(file_name@, is_file);
    let (stem, extension) = parted(name, is_file);
    let ghost mut places: Seq<int> = seq![];
    let mut index: u64 = 0;
    let count = entries.len();
    loop
        invariant
            count == entries@.len(),
            wanted == name_parts(file_name@, is_file),
            is_taken(entries@, below(dest_dir@, file_name@)),
            parts_view((stem, extension)) == wanted,
            index == places.len(),
            index <= count,
            forall|i: int|
                #![trigger places[i]]
                0 <= i < places.len() ==> 0 <= places[i] < count && entries@[places[i]].path@
                    == copy_path(dest_dir@, wanted, i as nat),
        decreases count - index,
    {
        let mut new_name: Vec<char> = Vec::new();
        extend(&mut new_name, stem.as_slice());
        extend_text(&mut new_name, " copy");
        if index > 0 {
            new_name.push(' ');
            let digits = decimal_chars(index);
            extend(&mut new_name, digits.as_slice());
        }
        if let Some(extension) = &extension {
            new_name.push('.');
            extend(&mut new_name, extension.as_slice());
        }
        assert(new_name@ =~= copy_name(wanted, index as nat));
        let candidate = join_below(dest_dir, &new_name);
        match find_taken(entries, candidate.as_str()) {
            None => {
                proof {
                    assert forall|earlier: nat| earlier < index implies is_taken(
                        entries@,
                        #[trigger] copy_path(dest_dir@, wanted, earlier),
                    ) by {
                        assert(0 <= places[earlier as int] < count);
                        assert(entries@[places[earlier as int]].path@ == copy_path(
                            dest_dir@,
                            wanted,
                            earlier,
                        ));
                    }
                    assert(is_first_free(entries@, dest_dir@, wanted, index as nat));
                }
                return candidate;
            },
            Some(place) => {
                proof {
                    let before = places;
                    places = places.push(place as int);
                    assert forall|i: int, j: int|
                        0 <= i < places.len() && 0 <= j < places.len() && i != j implies places[i]
                        != places[j] by {
                        if places[i] == places[j] {
                            law_copies_differ(dest_dir@, wanted, i as nat, j as nat);
                        }
                    }
                    lemma_places_fit(places, count as int);
                }
                index += 1;
            },
        }
    }
}

proof fn lemma_last_dot(name: Seq<char>, dot: int, n: int)
    requires
        -1 <= dot < n <= name.len(),
        dot >= 0 ==> name[dot] == '.',
        forall|i: int| dot < i < n ==> #[trigger] name[i] != '.',
    ensures
        last_dot(name, n) == dot,
    decreases n,
{
    if dot < n - 1 {
        assert(name[n - 1] != '.');
        lemma_last_dot(name, dot, n - 1);
    }
}

/// The extension of a file stands behind the last dot of its name; a name without
/// a dot, or with one at its beginning alone, has none, and no directory has one.
pub proof fn law_extensions(stem: Seq<char>, extension: Seq<char>)
    requires
        !extension.contains('.'),
        stem.len() > 0,
    ensures
        stem + seq!['.'] + extension != ".."@ ==> name_parts(
            stem + seq!['.'] + extension,
            true,
        ) == (stem, Some(extension)),
        name_parts(stem + seq!['.'] + extension, false) == (
            stem + seq!['.'] + extension,
            None::<Seq<char>>,
        ),
        name_parts(extension, true) == (extension, None::<Seq<char>>),
        name_parts(seq!['.'] + extension, true) == (seq!['.'] + extension, None::<Seq<char>>),
{
    assert forall|i: int| 0 <= i < extension.len() implies #[trigger] extension[i] != '.' by {
        assert(extension.contains(extension[i]));
    }
    let name = stem + seq!['.'] + extension;
    let n = name.len() as int;
    assert forall|i: int| stem.len() < i < n implies #[trigger] name[i] != '.' by {
        assert(name[i] == extension[i - stem.len() - 1]);
    }
    lemma_last_dot(name, stem.len() as int, n);
    assert(name.take(stem.len() as int) =~= stem);
    assert(name.skip(stem.len() as int + 1) =~= extension);
    let hidden = seq!['.'] + extension;
    assert forall|i: int| 0 < i < hidden.len() implies #[trigger] hidden[i] != '.' by {
        assert(hidden[i] == extension[i - 1]);
    }
    lemma_last_dot(hidden, 0, hidden.len() as int);
    if extension.len() > 0 {
        lemma_last_dot(extension, -1, extension.len() as int);
    }
}

/// The names of copies: the word behind the stem and before the extension, and from
/// the second copy on a number behind it.
pub proof fn law_names_of_copies(stem: Seq<char>, extension: Seq<char>, number: nat)
    requires
        number > 0,
    ensures
        copy_name((stem, Some(extension)), 0) == stem + " copy"@ + seq!['.'] + extension,
        copy_name((stem, None), 0) == stem + " copy"@,
        copy_name((stem, Some(extension)), number) == stem + " copy"@ + seq![' '] + decimal(number)
            + seq!['.'] + extension,
        copy_name((stem, None), number) == stem + " copy"@ + seq![' '] + decimal(number),
{
    assert(copy_name((stem, Some(extension)), 0) =~= stem + " copy"@ + seq!['.'] + extension);
    assert(copy_name((stem, None), 0) =~= stem + " copy"@);
    assert(copy_name((stem, Some(extension)), number) =~= stem + " copy"@ + seq![' '] + decimal(
        number,
    ) + seq!['.'] + extension);
    assert(copy_name((stem, None), number) =~= stem + " copy"@ + seq![' '] + decimal(number));
}

/// What is pasted keeps its name where nothing in the directory has it; else it is
/// called a copy, with the least number that is free. What is there is never
/// written over.
pub proof fn law_pasted_names(
    entries: Seq<WorktreeEntry>,
    directory: Seq<char>,
    name: Seq<char>,
    is_file: bool,
    path: Seq<char>,
)
    requires
        is_paste_path(entries, directory, name, is_file, path),
        directory.len() > 0,
    ensures
        forall|i: int| 0 <= i < entries.len() ==> (#[trigger] entries[i]).path@ != path,
        path.len() > directory.len() && path.take(directory.len() as int) == directory
            && path[directory.len() as int] == '/',
        (forall|i: int|
            0 <= i < entries.len() ==> (#[trigger] entries[i]).path@ != directory + seq!['/']
                + name) <==> path == directory + seq!['/'] + name,
{
    let kept = directory + seq!['/'] + name;
    let parts = name_parts(name, is_file);
    if is_taken(entries, kept) {
        let index = choose|index: nat|
            is_first_free(entries, directory, parts, index) && path == #[trigger] copy_path(
                directory,
                parts,
                index,
            );
        let copy = copy_name(parts, index);
        assert(path == directory + seq!['/'] + copy);
        assert(path.take(directory.len() as int) =~= directory);
        let i = choose|i: int| 0 <= i < entries.len() && (#[trigger] entries[i]).path@ == kept;
        assert(entries[i].path@ == kept);
        assert(!is_taken(entries, path));
    } else {
        assert(path.take(directory.len() as int) =~= directory);
    }
    assert forall|i: int| 0 <= i < entries.len() implies (#[trigger] entries[i]).path@ != path by {
        assert(!is_taken(entries, path));
    }
}

} // verus!
