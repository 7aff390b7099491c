//! Path text whose components are separated by `/`.
use vstd::prelude::*;

verus! {

/// The character that separates the components of a path.
pub const SEPARATOR: char = '/';

/// A path that starts at the root. Joining it to a base discards the base.
pub open spec fn is_absolute(path: Seq<char>) -> bool {
    path.len() > 0 && path[0] == SEPARATOR
}

/// A base after which a relative component has to be set off by a separator:
/// one that is not empty and does not already end in a separator.
pub open spec fn needs_separator(base: Seq<char>) -> bool {
    base.len() > 0 && base.last() != SEPARATOR
}

/// `base` extended by `component`.
pub open spec fn joined(base: Seq<char>, component: Seq<char>) -> Seq<char> {
    if is_absolute(component) {
        component
    } else if needs_separator(base) {
        base + seq![SEPARATOR] + component
    } else {
        base + component
    }
}

/// Extends `base` by `component`. An absolute component replaces the base; a
/// relative one is appended, after a separator where the base lacks one.
pub fn join_path(base: &str, component: &str) -> (path: String)
    ensures
        path@ == joined(base@, component@),
{
    if !component.is_empty() && component.get_char(0) == SEPARATOR {
        String::from_str(component)
    } else {
        let mut path = String::from_str(base);
        let base_len: usize = base.unicode_len();
        if base_len > 0 && base.get_char(base_len - 1) != SEPARATOR {
            proof {
                reveal_strlit("/");
            }
            path.append("/");
            assert(path@ == base@ + seq![SEPARATOR]);
        }
        path.append(component);
        path
    }
}

/// A name that is one component of a path and names something below the
/// directory it is joined to: not empty, without a separator, and neither
/// `.`, the directory itself, nor `..`, the directory above.
pub open spec fn is_file_name(name: Seq<char>) -> bool {
    &&& name.len() > 0
    &&& !name.contains(SEPARATOR)
    &&& name != seq!['.']
    &&& name != seq!['.', '.']
}

/// Whether `name` is the name of a file, as [`is_file_name`] says.
pub fn names_a_file(name: &str) -> (plain: bool)
    ensures
        plain == is_file_name(name@),
{
    let len: usize = name.unicode_len();
    if len == 0 {
        return false;
    }
    let mut seen: usize = 0;
    while seen < len
        invariant
            seen <= len,
            len == name@.len(),
            forall|i: int| 0 <= i < seen ==> name@[i] != SEPARATOR,
        decreases len - seen,
    {
        if name.get_char(seen) == SEPARATOR {
            assert(name@.contains(SEPARATOR));
            return false;
        }
        seen = seen + 1;
    }
    if name.get_char(0) != '.' {
        assert(name@[0] != seq!['.'][0] && name@[0] != seq!['.', '.'][0]);
        return true;
    }
    if len == 1 {
        assert(name@ == seq!['.']);
        return false;
    }
    if len == 2 && name.get_char(1) == '.' {
        assert(name@ == seq!['.', '.']);
        return false;
    }
    assert(name@.len() != 1);
    assert(name@.len() == 2 ==> name@[1] != seq!['.', '.'][1]);
    true
}

/// A file name joined to a directory lies below it: the path starts with the
/// directory and ends in the name, with nothing but a separator between,
/// where the directory lacks one.
pub proof fn lemma_file_name_stays_below(directory: Seq<char>, name: Seq<char>)
    requires
        is_file_name(name),
    ensures
        directory.is_prefix_of(joined(directory, name)),
        joined(directory, name) == directory + name || joined(directory, name) == directory
            + seq![SEPARATOR] + name,
{
    assert(name[0] != SEPARATOR);
}

} // verus!
