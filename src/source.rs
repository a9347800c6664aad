use vstd::prelude::*;

use crate::diagnostic::{chars_of, string_of};
use crate::filter::ShaderFragment;

verus! {

/// A fragment named with this character first is a fixed part of the shared library: it is
/// looked up in the library root alone and never reloaded.
pub const LIBRARY_MARKER: char = '#';

/// The fragment entry names a fixed library fragment.
pub open spec fn is_library_entry(entry: Seq<char>) -> bool {
    entry.len() > 0 && entry[0] == LIBRARY_MARKER
}

/// The relative path an entry names: the marker left out, each `/` turned into `separator`.
pub open spec fn relative_path(entry: Seq<char>, separator: char) -> Seq<char> {
    let body = if is_library_entry(entry) {
        entry.subrange(1, entry.len() as int)
    } else {
        entry
    };
    Seq::new(
        body.len(),
        |i: int|
            if body[i] == '/' {
                separator
            } else {
                body[i]
            },
    )
}

/// The roots, by index, that an entry is looked for in, in order: the last one alone (the
/// shared library) for a library entry, else all of them, project roots first.
pub open spec fn candidate_roots(entry: Seq<char>, root_count: nat) -> Seq<int> {
    if is_library_entry(entry) {
        if root_count > 0 {
            seq![root_count - 1]
        } else {
            Seq::empty()
        }
    } else {
        Seq::new(root_count, |i: int| i)
    }
}

/// The relative path of a fragment entry, with `separator` in place of each `/`.
pub fn fragment_path(entry: &str, separator: char) -> (r: String)
    ensures
        r@ == relative_path(entry@, separator),
{
    let chars = chars_of(entry);
    let start: usize = if chars.len() > 0 && chars[0] == LIBRARY_MARKER {
        1
    } else {
        0
    };
    let ghost body = if is_library_entry(entry@) {
        entry@.subrange(1, entry@.len() as int)
    } else {
        entry@
    };
    assert(start == 1 <==> is_library_entry(entry@));
    let mut out: Vec<char> = Vec::new();
    let mut i: usize = start;
    while i < chars.len()
        invariant
            chars@ == entry@,
            start <= i <= chars@.len(),
            body == chars@.subrange(start as int, chars@.len() as int),
            relative_path(entry@, separator).len() == chars@.len() - start,
            forall|j: int|
                0 <= j < body.len() ==> #[trigger] relative_path(entry@, separator)[j] == if body[j]
                    == '/' {
                    separator
                } else {
                    body[j]
                },
            out@ == relative_path(entry@, separator).subrange(0, i - start),
        decreases chars@.len() - i,
    {
        let c = chars[i];
        assert(body[i - start] == c);
        if c == '/' {
            out.push(separator);
        } else {
            out.push(c);
        }
        i = i + 1;
        assert(out@ =~= relative_path(entry@, separator).subrange(0, i - start));
    }
    assert(out@ =~= relative_path(entry@, separator));
    string_of(&out)
}

/// Finds the file of a fragment entry: the first candidate root (`candidate_roots`) for which
/// `is_present` says the relative path is there. The fragment is watched unless it is a library
/// one. `None` when no candidate root has it.
pub fn locate_fragment<F: Fn(usize, &String) -> bool>(
    entry: &str,
    separator: char,
    root_count: usize,
    is_present: &F,
) -> (r: Option<(usize, ShaderFragment)>)
    requires
        forall|i: usize, p: &String| is_present.requires((i, p)),
    ensures
        ({
            let path = relative_path(entry@, separator);
            let roots = candidate_roots(entry@, root_count as nat);
            match r {
                Some((root, fragment)) => {
                    &&& fragment.path@ == path
                    &&& fragment.watched == !is_library_entry(entry@)
                    &&& exists|k: int|
                        0 <= k < roots.len() && roots[k] == root && is_present.ensures(
                            (root, &fragment.path),
                            true,
                        ) && forall|m: int|
                            0 <= m < k ==> is_present.ensures(
                                (#[trigger] roots[m] as usize, &fragment.path),
                                false,
                            )
                },
                None => forall|m: int|
                    0 <= m < roots.len() ==> exists|p: String|
                        p@ == path && is_present.ensures((#[trigger] roots[m] as usize, &p), false),
            }
        }),
{
    let path = fragment_path(entry, separator);
    let chars = chars_of(entry);
    let library = chars.len() > 0 && chars[0] == LIBRARY_MARKER;
    let ghost roots = candidate_roots(entry@, root_count as nat);
    if library {
        if root_count == 0 {
            return None;
        }
        let root = root_count - 1;
        let found = is_present(root, &path);
        if found {
            let fragment = ShaderFragment { path, watched: false };
            assert(roots[0] == root);
            return Some((root, fragment));
        }
        assert(roots.len() == 1 && roots[0] == root);
        return None;
    }
    let mut i: usize = 0;
    while i < root_count
        invariant
            i <= root_count,
            !library,
            !is_library_entry(entry@),
            roots == candidate_roots(entry@, root_count as nat),
            path@ == relative_path(entry@, separator),
            forall|i: usize, p: &String| is_present.requires((i, p)),
            forall|m: int| 0 <= m < i ==> is_present.ensures((#[trigger] roots[m] as usize, &path), false),
        decreases root_count - i,
    {
        let found = is_present(i, &path);
        if found {
            let fragment = ShaderFragment { path, watched: true };
            assert(roots[i as int] == i);
            return Some((i, fragment));
        }
        assert(roots[i as int] == i);
        i = i + 1;
    }
    None
}

/// The text of a shader made of fragments: their texts joined in order.
pub open spec fn joined(parts: Seq<Seq<char>>) -> Seq<char>
    decreases parts.len(),
{
    if parts.len() == 0 {
        Seq::empty()
    } else {
        joined(parts.drop_last()) + parts.last()
    }
}

/// Joins the texts of a shader's fragments, in order.
pub fn compose_source(parts: &Vec<String>) -> (r: String)
    ensures
        r@ == joined(parts@.map_values(|p: String| p@)),
{
    let mut out: Vec<char> = Vec::new();
    let mut i: usize = 0;
    while i < parts.len()
        invariant
            i <= parts@.len(),
            out@ == joined(parts@.subrange(0, i as int).map_values(|p: String| p@)),
        decreases parts@.len() - i,
    {
        let mut chars = chars_of(parts[i].as_str());
        out.append(&mut chars);
        proof {
            let before = parts@.subrange(0, i as int).map_values(|p: String| p@);
            let after = parts@.subrange(0, i as int + 1).map_values(|p: String| p@);
            assert(after.drop_last() =~= before);
        }
        i = i + 1;
    }
    assert(parts@.subrange(0, parts@.len() as int) =~= parts@);
    string_of(&out)
}

} // verus!
