//! Finding the command-line tool: merging search directories without
//! repeats, reading the search path out of a login shell's output, and the
//! executable extensions of a platform.
use vstd::prelude::*;
use crate::paths::{path_parts, plain, same_path};
use crate::text::{push_char, push_str, texts};

verus! {

/// Whether two paths are surely the same path: the same text, or plain
/// paths with the same components.
pub open spec fn surely_same(a: Seq<char>, b: Seq<char>) -> bool {
    a == b || (plain(a) && plain(b) && path_parts(a) == path_parts(b))
}

/// Whether two paths may be the same path: surely, or because one of them
/// is not plain, and the platform decides.
pub open spec fn maybe_same(a: Seq<char>, b: Seq<char>) -> bool {
    surely_same(a, b) || !(plain(a) && plain(b))
}

/// Whether `after` is `before` with the path `x` taken in: appended when it
/// is the same path as no entry, left out when it is the same path as one.
/// For plain paths that decides; for others the platform's path equality
/// does.
pub open spec fn takes_path(before: Seq<Seq<char>>, x: Seq<char>, after: Seq<Seq<char>>) -> bool {
    ||| (after == before.push(x) && forall|i: int| 0 <= i < before.len() ==> !surely_same(#[trigger] before[i], x))
    ||| (after == before && exists|i: int| 0 <= i < before.len() && maybe_same(#[trigger] before[i], x))
}

/// Whether `result` is the paths of `start` followed by those of `more`
/// taken in one after the other.
pub open spec fn merged_paths(start: Seq<Seq<char>>, more: Seq<Seq<char>>, result: Seq<Seq<char>>) -> bool
    decreases more.len(),
{
    if more.len() == 0 {
        result == start
    } else {
        exists|mid: Seq<Seq<char>>|
            merged_paths(start, more.drop_last(), mid) && #[trigger] takes_path(mid, more.last(), result)
    }
}

/// The paths taken in keep the entries of `start` first, in their order.
pub proof fn lemma_merged_keeps_start(start: Seq<Seq<char>>, more: Seq<Seq<char>>, result: Seq<Seq<char>>)
    requires
        merged_paths(start, more, result),
    ensures
        result.len() >= start.len(),
        result.take(start.len() as int) == start,
    decreases more.len(),
{
    if more.len() == 0 {
        assert(result.take(start.len() as int) =~= start);
    } else {
        let mid = choose|mid: Seq<Seq<char>>|
            merged_paths(start, more.drop_last(), mid) && #[trigger] takes_path(mid, more.last(), result);
        lemma_merged_keeps_start(start, more.drop_last(), mid);
        if result == mid.push(more.last()) {
            assert(result.take(start.len() as int) =~= mid.take(start.len() as int));
        }
    }
}

/// No path is taken in twice: when no two entries of `start` are the same
/// path, no two entries of the result are.
pub proof fn lemma_merged_distinct(start: Seq<Seq<char>>, more: Seq<Seq<char>>, result: Seq<Seq<char>>)
    requires
        merged_paths(start, more, result),
        forall|i: int, j: int| 0 <= i < j < start.len() ==> !surely_same(#[trigger] start[i], #[trigger] start[j]),
    ensures
        forall|i: int, j: int| 0 <= i < j < result.len() ==> !surely_same(#[trigger] result[i], #[trigger] result[j]),
    decreases more.len(),
{
    if more.len() > 0 {
        let mid = choose|mid: Seq<Seq<char>>|
            merged_paths(start, more.drop_last(), mid) && #[trigger] takes_path(mid, more.last(), result);
        lemma_merged_distinct(start, more.drop_last(), mid);
        if result == mid.push(more.last()) {
            assert forall|i: int, j: int| 0 <= i < j < result.len() implies !surely_same(
                #[trigger] result[i],
                #[trigger] result[j],
            ) by {
                if j == mid.len() {
                    assert(result[i] == mid[i]);
                } else {
                    assert(result[i] == mid[i] && result[j] == mid[j]);
                }
            }
        }
    }
}

/// Whether `paths` holds the same path as `path`, as the platform compares
/// paths.
fn path_listed(paths: &Vec<String>, path: &str) -> (found: bool)
    ensures
        found ==> exists|i: int| 0 <= i < paths@.len() && maybe_same(#[trigger] texts(paths@)[i], path@),
        !found ==> forall|i: int| 0 <= i < paths@.len() ==> !surely_same(#[trigger] texts(paths@)[i], path@),
{
    let mut i: usize = 0;
    while i < paths.len()
        invariant
            i <= paths@.len(),
            forall|j: int| 0 <= j < i ==> !surely_same(#[trigger] texts(paths@)[j], path@),
        decreases paths@.len() - i,
    {
        if same_path(paths[i].as_str(), path) {
            proof {
                assert(maybe_same(texts(paths@)[i as int], path@));
            }
            return true;
        }
        i = i + 1;
    }
    false
}

/// Appends the paths of `more` that are not the same path as one that
/// `paths` holds by then, in order.
///
/// The contract fixes the result only where the paths are plain (they hold
/// neither `\` nor `:` and do not begin with two `/`, so every platform splits
/// them the same way): a plain path among plain entries is appended exactly
/// when no entry has the same components. A path that is not plain is
/// compared with the platform's path equality (`same_path`), whose answers
/// are not named here; of such a path (or a path beside an entry that is
/// not) the contract says only that it is appended when no entry is surely
/// the same path, and that, when it is left out, some entry may be the same
/// path.
pub fn extend_unique(paths: &mut Vec<String>, more: Vec<String>)
    ensures
        merged_paths(texts(old(paths)@), texts(more@), texts(final(paths)@)),
{
    let ghost start = texts(paths@);
    let mut i: usize = 0;
    assert(texts(more@).take(0) =~= Seq::<Seq<char>>::empty());
    while i < more.len()
        invariant
            i <= more@.len(),
            merged_paths(start, texts(more@).take(i as int), texts(paths@)),
        decreases more@.len() - i,
    {
        let ghost before = texts(paths@);
        let ghost t = texts(more@).take(i + 1);
        proof {
            assert(t.drop_last() =~= texts(more@).take(i as int));
            assert(t.last() == more@[i as int]@);
        }
        if !path_listed(paths, more[i].as_str()) {
            paths.push(more[i].clone());
            proof {
                assert(texts(paths@) =~= before.push(more@[i as int]@));
            }
        }
        proof {
            assert(takes_path(before, t.last(), texts(paths@)));
            assert(merged_paths(start, t, texts(paths@)));
        }
        i = i + 1;
    }
    proof {
        assert(texts(more@).take(more@.len() as int) =~= texts(more@));
    }
}

/// The search directories of `primary` followed by those of `fallback`
/// that are not the same path as one before them: the primary order keeps
/// precedence.
///
/// As for `extend_unique`, the result is fixed for plain paths; a path that
/// is not plain is kept or left out as the platform's path equality
/// (`same_path`) answers, which the contract bounds but does not name.
pub fn combine_paths(primary: Vec<String>, fallback: Vec<String>) -> (paths: Vec<String>)
    ensures
        merged_paths(texts(primary@), texts(fallback@), texts(paths@)),
{
    let mut paths = primary;
    extend_unique(&mut paths, fallback);
    paths
}

/// The position of the first zero byte at or after `from`.
pub open spec fn first_zero(bytes: Seq<u8>, from: int) -> Option<int>
    decreases bytes.len() - from,
{
    if from < 0 || from >= bytes.len() {
        None
    } else if bytes[from] == 0 {
        Some(from)
    } else {
        first_zero(bytes, from + 1)
    }
}

/// What a shell printed between the first two zero bytes of its output.
pub open spec fn marked_spec(output: Seq<u8>) -> Option<Seq<u8>> {
    match first_zero(output, 0) {
        Some(a) => match first_zero(output, a + 1) {
            Some(b) => Some(output.subrange(a + 1, b)),
            None => None,
        },
        None => None,
    }
}

fn find_zero(bytes: &[u8], from: usize) -> (at: Option<usize>)
    requires
        from <= bytes@.len(),
    ensures
        at is Some <==> first_zero(bytes@, from as int) is Some,
        at is Some ==> at.unwrap() as int == first_zero(bytes@, from as int).unwrap(),
        at is Some ==> from <= at.unwrap() < bytes@.len(),
{
    let mut i = from;
    while i < bytes.len()
        invariant
            from <= i <= bytes@.len(),
            first_zero(bytes@, from as int) == first_zero(bytes@, i as int),
        decreases bytes@.len() - i,
    {
        if bytes[i] == 0 {
            return Some(i);
        }
        i = i + 1;
    }
    None
}

/// The search path that a login shell printed between two zero bytes;
/// anything it printed around them is ignored.
pub fn marked_path(output: &[u8]) -> (path: Option<&[u8]>)
    ensures
        path is Some <==> marked_spec(output@) is Some,
        path is Some ==> path.unwrap()@ == marked_spec(output@).unwrap(),
{
    let n = output.len();
    let start = match find_zero(output, 0) {
        Some(a) => a + 1,
        None => return None,
    };
    let end = match find_zero(output, start) {
        Some(b) => b,
        None => return None,
    };
    Some(vstd::slice::slice_subrange(output, start, end))
}

/// The pieces of a text between `;` separators that are not empty.
pub open spec fn split_spec(text: Seq<char>) -> (Seq<Seq<char>>, Seq<char>)
    decreases text.len(),
{
    if text.len() == 0 {
        (seq![], seq![])
    } else {
        let (pieces, current) = split_spec(text.drop_last());
        if text.last() == ';' {
            if current.len() > 0 {
                (pieces.push(current), seq![])
            } else {
                (pieces, seq![])
            }
        } else {
            (pieces, current.push(text.last()))
        }
    }
}

/// The executable extensions that a `PATHEXT` value lists, in order,
/// without empty entries.
pub open spec fn extensions_spec(text: Seq<char>) -> Seq<Seq<char>> {
    let (pieces, current) = split_spec(text);
    if current.len() > 0 {
        pieces.push(current)
    } else {
        pieces
    }
}

/// The file names tried in each search directory for an executable name:
/// the name itself, then, when it has no extension, the name followed by
/// each executable extension in turn.
pub open spec fn names_tried(name: Seq<char>, has_extension: bool, extensions: Seq<Seq<char>>) -> Seq<Seq<char>> {
    if has_extension {
        seq![name]
    } else {
        seq![name] + extensions.map_values(|e: Seq<char>| name + e)
    }
}

/// The file names to try, in order, in each search directory for the
/// executable `name`.
pub fn candidate_names(name: &str, has_extension: bool, extensions: &Vec<String>) -> (names: Vec<String>)
    ensures
        texts(names@) == names_tried(name@, has_extension, texts(extensions@)),
{
    let mut names: Vec<String> = Vec::new();
    names.push(name.to_owned());
    if has_extension {
        proof {
            assert(texts(names@) =~= seq![name@]);
        }
        return names;
    }
    let mut i: usize = 0;
    while i < extensions.len()
        invariant
            i <= extensions@.len(),
            texts(names@) =~= seq![name@] + texts(extensions@).take(i as int).map_values(
                |e: Seq<char>| name@ + e,
            ),
        decreases extensions@.len() - i,
    {
        let mut candidate = name.to_owned();
        push_str(&mut candidate, extensions[i].as_str());
        let ghost before = names@;
        names.push(candidate);
        proof {
            assert(texts(extensions@).take(i + 1) =~= texts(extensions@).take(i as int).push(
                extensions@[i as int]@,
            ));
            assert(texts(names@) =~= texts(before).push(name@ + extensions@[i as int]@));
        }
        i = i + 1;
    }
    proof {
        assert(texts(extensions@).take(i as int) =~= texts(extensions@));
    }
    names
}

/// The executable extensions that a `PATHEXT` value lists.
pub fn split_extensions(value: &str) -> (extensions: Vec<String>)
    ensures
        texts(extensions@) == extensions_spec(value@),
{
    let mut extensions: Vec<String> = Vec::new();
    let mut current = String::new();
    for c in it: value.chars()
        invariant
            it.seq() == value@,
            texts(extensions@) == split_spec(value@.take(it.index())).0,
            current@ == split_spec(value@.take(it.index())).1,
    {
        let ghost k = it.index();
        proof {
            assert(value@.take(k + 1).drop_last() =~= value@.take(k));
            assert(value@.take(k + 1).last() == c);
        }
        if c == ';' {
            if !current.as_str().is_empty() {
                let ghost before = extensions@;
                extensions.push(current);
                proof {
                    assert(texts(extensions@) =~= texts(before).push(split_spec(value@.take(k)).1));
                }
            } else {
                proof {
                    assert(current@.len() == 0);
                }
            }
            current = String::new();
        } else {
            push_char(&mut current, c);
        }
    }
    proof {
        assert(value@.take(value@.len() as int) =~= value@);
    }
    if !current.as_str().is_empty() {
        let ghost before = extensions@;
        extensions.push(current);
        proof {
            assert(texts(extensions@) =~= texts(before).push(split_spec(value@).1));
        }
    } else {
        proof {
            assert(current@.len() == 0);
        }
    }
    extensions
}

} // verus!
