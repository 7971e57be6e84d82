//! The file filter: a pure predicate deciding whether a path is eligible for
//! reconciliation, from the hidden-directory rule and the accepted-extension
//! rule.

use vstd::prelude::*;

verus! {

/// The filter's configuration: whether paths inside hidden directories are
/// rejected, and which file extensions are accepted.
pub struct FilterConfig {
    pub ignore_hidden_directories: bool,
    pub supported_extensions: Vec<String>,
}

/// A hidden component starts at position `i` of `p`: a `.` at a component
/// boundary followed by at least one more character of the same component.
/// A single-dot component (a conventional current-directory marker) has its
/// `.` followed by a separator or the path's end, so it never satisfies this.
pub open spec fn hidden_at(p: Seq<char>, i: int) -> bool {
    &&& 0 <= i
    &&& i + 1 < p.len()
    &&& p[i] == '.'
    &&& (i == 0 || p[i - 1] == '/')
    &&& p[i + 1] != '/'
}

/// Some component of `p`, other than a single-dot component, begins with `.`.
pub open spec fn has_hidden_component(p: Seq<char>) -> bool {
    exists|i: int| hidden_at(p, i)
}

/// Index at which the last component of `p` begins: just after the last
/// separator, or zero when there is none.
pub open spec fn name_start(p: Seq<char>) -> int
    decreases p.len(),
{
    if p.len() == 0 {
        0
    } else if p[p.len() - 1] == '/' {
        p.len() as int
    } else {
        name_start(p.drop_last())
    }
}

/// Index of the last `.` in `n`, or -1 when `n` has none.
pub open spec fn last_dot(n: Seq<char>) -> int
    decreases n.len(),
{
    if n.len() == 0 {
        -1
    } else if n[n.len() - 1] == '.' {
        n.len() - 1
    } else {
        last_dot(n.drop_last())
    }
}

/// The extension of `p`: what follows the last `.` of the last component.
/// A name without a `.`, or whose only `.` is its first character, has none.
pub open spec fn extension(p: Seq<char>) -> Option<Seq<char>> {
    let name = p.skip(name_start(p));
    let d = last_dot(name);
    if d <= 0 {
        None
    } else {
        Some(name.skip(d + 1))
    }
}

/// A path passes the filter when it has no hidden component (if hidden
/// directories are excluded) and carries an accepted extension.
pub open spec fn eligible(p: Seq<char>, ignore_hidden: bool, exts: Seq<Seq<char>>) -> bool {
    &&& ignore_hidden ==> !has_hidden_component(p)
    &&& match extension(p) {
        Some(e) => exts.contains(e),
        None => false,
    }
}

/// A path with a hidden component is rejected whenever hidden-directory
/// exclusion is enabled, whatever extensions are accepted.
pub proof fn lemma_hidden_component_rejected(p: Seq<char>, exts: Seq<Seq<char>>)
    requires
        has_hidden_component(p),
    ensures
        !eligible(p, true, exts),
{
}

/// A path with no extension, or whose extension the configuration does not
/// accept, is rejected whatever the hidden-directory rule says.
pub proof fn lemma_unknown_extension_rejected(
    p: Seq<char>,
    ignore_hidden: bool,
    exts: Seq<Seq<char>>,
)
    requires
        extension(p) is None || !exts.contains(extension(p)->Some_0),
    ensures
        !eligible(p, ignore_hidden, exts),
{
}

/// Decides `has_hidden_component` over the path's characters.
fn find_hidden_component(path: &str) -> (r: bool)
    ensures
        r == has_hidden_component(path@),
{
    let len = path.unicode_len();
    let mut i: usize = 0;
    while i < len
        invariant
            i <= len,
            len == path@.len(),
            forall|j: int| 0 <= j < i ==> !hidden_at(path@, j),
        decreases len - i,
    {
        if path.get_char(i) == '.' && (i == 0 || path.get_char(i - 1) == '/') && i + 1 < len
            && path.get_char(i + 1) != '/' {
            assert(hidden_at(path@, i as int));
            return true;
        }
        i = i + 1;
    }
    assert forall|j: int| !hidden_at(path@, j) by {
        if 0 <= j && j + 1 < path@.len() {
            assert(!hidden_at(path@, j));
        }
    }
    false
}

/// Finds where the last component of the path begins.
fn find_name_start(path: &str) -> (r: usize)
    ensures
        r == name_start(path@),
{
    let len = path.unicode_len();
    let mut i: usize = len;
    proof {
        assert(path@.take(len as int) =~= path@);
    }
    while i > 0
        invariant
            i <= len,
            len == path@.len(),
            name_start(path@) == name_start(path@.take(i as int)),
        decreases i,
    {
        let c = path.get_char(i - 1);
        proof {
            assert(path@.take(i as int).last() == path@[i - 1]);
        }
        if c == '/' {
            assert(name_start(path@.take(i as int)) == i);
            return i;
        }
        proof {
            assert(path@.take(i as int).drop_last() =~= path@.take(i - 1));
        }
        i = i - 1;
    }
    assert(path@.take(0).len() == 0);
    0
}

/// Finds the index of the last `.` of `name`, if any.
fn find_last_dot(name: &str) -> (r: Option<usize>)
    ensures
        match r {
            Some(d) => last_dot(name@) == d as int,
            None => last_dot(name@) == -1,
        },
{
    let len = name.unicode_len();
    let mut i: usize = len;
    proof {
        assert(name@.take(len as int) =~= name@);
    }
    while i > 0
        invariant
            i <= len,
            len == name@.len(),
            last_dot(name@) == last_dot(name@.take(i as int)),
        decreases i,
    {
        let c = name.get_char(i - 1);
        proof {
            assert(name@.take(i as int).last() == name@[i - 1]);
        }
        if c == '.' {
            assert(last_dot(name@.take(i as int)) == i - 1);
            return Some(i - 1);
        }
        proof {
            assert(name@.take(i as int).drop_last() =~= name@.take(i - 1));
        }
        i = i - 1;
    }
    assert(name@.take(0).len() == 0);
    None
}

/// The file filter: a path is applied only when it lies in no hidden
/// directory (if that rule is enabled) and carries an accepted extension.
pub fn should_be_applied(path: &str, config: &FilterConfig) -> (r: bool)
    ensures
        r == eligible(
            path@,
            config.ignore_hidden_directories,
            config.supported_extensions.deep_view(),
        ),
{
    if config.ignore_hidden_directories && find_hidden_component(path) {
        return false;
    }
    let len = path.unicode_len();
    let ns = find_name_start(path);
    assert(0 <= name_start(path@) <= path@.len()) by {
        lemma_name_start_bounds(path@);
    }
    let name = path.substring_char(ns, len);
    proof {
        assert(name@ =~= path@.skip(name_start(path@)));
    }
    match find_last_dot(name) {
        None => false,
        Some(d) => {
            if d == 0 {
                return false;
            }
            let name_len = name.unicode_len();
            proof {
                lemma_last_dot_bounds(name@);
            }
            let ext = name.substring_char(d + 1, name_len);
            proof {
                assert(ext@ =~= name@.skip(last_dot(name@) + 1));
            }
            let ghost exts = config.supported_extensions.deep_view();
            let n = config.supported_extensions.len();
            let mut i: usize = 0;
            proof {
                assert(exts.len() == n);
            }
            while i < n
                invariant
                    i <= n,
                    n == exts.len(),
                    n == config.supported_extensions.len(),
                    forall|j: int| 0 <= j < i ==> exts[j] != ext@,
                    exts == config.supported_extensions.deep_view(),
                    extension(path@) == Some(ext@),
                    config.ignore_hidden_directories ==> !has_hidden_component(path@),
                decreases n - i,
            {
                proof {
                    assert(exts[i as int] == config.supported_extensions[i as int]@);
                }
                if crate::text::str_eq(ext, config.supported_extensions[i].as_str()) {
                    assert(exts.contains(ext@));
                    return true;
                }
                i = i + 1;
            }
            assert(!exts.contains(ext@));
            false
        },
    }
}

/// The last dot of a name, where there is one, lies within the name.
proof fn lemma_last_dot_bounds(n: Seq<char>)
    ensures
        -1 <= last_dot(n) < n.len(),
    decreases n.len(),
{
    if n.len() > 0 && n[n.len() - 1] != '.' {
        lemma_last_dot_bounds(n.drop_last());
    }
}

/// The start of the last component lies within the path.
proof fn lemma_name_start_bounds(p: Seq<char>)
    ensures
        0 <= name_start(p) <= p.len(),
    decreases p.len(),
{
    if p.len() > 0 && p[p.len() - 1] != '/' {
        lemma_name_start_bounds(p.drop_last());
    }
}

} // verus!
