//! Naming helpers: extracting a human project name from a target path that
//! points inside a dependency-vendoring directory, and the fixed location of
//! the persisted project registry inside the data directory.

use vstd::prelude::*;
use crate::text::{split_seq, split_str, str_eq};

verus! {

/// The directory name that marks a vendored dependency tree.
pub open spec fn node_modules_name() -> Seq<char> {
    seq!['n', 'o', 'd', 'e', '_', 'm', 'o', 'd', 'u', 'l', 'e', 's']
}

/// A path component that can stand in for a project name: non-empty, not the
/// vendoring marker itself, and not a scope component beginning with `@`.
pub open spec fn is_good_fallback(p: Seq<char>) -> bool {
    p.len() > 0 && p != node_modules_name() && p[0] != '@'
}

/// The last component, scanning right to left, that can stand in for a
/// project name; the whole path if none can.
pub open spec fn fallback_name(parts: Seq<Seq<char>>, whole: Seq<char>) -> Seq<char>
    decreases parts.len(),
{
    if parts.len() == 0 {
        whole
    } else if is_good_fallback(parts.last()) {
        parts.last()
    } else {
        fallback_name(parts.drop_last(), whole)
    }
}

/// The project name suggested by a target path: the component just before
/// the last vendoring marker, or, when the marker is absent or first, the
/// rightmost usable component, or the whole path as a last resort.
pub open spec fn extract_name_spec(path: Seq<char>) -> Seq<char> {
    let parts = split_seq(path, '/');
    match parts.index_of_last(node_modules_name()) {
        Option::Some(i) => if i > 0 {
            parts[i - 1]
        } else {
            fallback_name(parts, path)
        },
        Option::None => fallback_name(parts, path),
    }
}

fn fallback_scan(parts: &Vec<String>, whole: &str) -> (r: String)
    ensures
        r@ == fallback_name(parts.deep_view(), whole@),
{
    let ghost dv = parts.deep_view();
    proof {
        reveal_strlit("node_modules");
        assert("node_modules"@ =~= node_modules_name());
        assert(dv.take(parts@.len() as int) =~= dv);
    }
    let mut t: usize = parts.len();
    while t > 0
        invariant
            dv == parts.deep_view(),
            t <= dv.len(),
            dv.len() == parts@.len(),
            fallback_name(dv, whole@) == fallback_name(dv.take(t as int), whole@),
        decreases t,
    {
        proof {
            reveal_strlit("node_modules");
            assert("node_modules"@ =~= node_modules_name());
        }
        let p = &parts[t - 1];
        let mut good = false;
        if p.as_str().unicode_len() > 0 {
            if !str_eq(p.as_str(), "node_modules") {
                if p.as_str().get_char(0) != '@' {
                    good = true;
                }
            }
        }
        proof {
            assert(dv.take(t as int).last() == dv[t - 1]);
            assert(dv[t - 1] == p@);
            assert(good == is_good_fallback(dv[t - 1]));
            assert(dv.take(t as int).drop_last() =~= dv.take(t - 1));
        }
        if good {
            return p.clone();
        }
        t = t - 1;
    }
    proof {
        assert(dv.take(0) =~= Seq::<Seq<char>>::empty());
    }
    whole.to_owned()
}

/// Derives a display name for a target from its path: the directory just
/// above the last vendoring marker, or the rightmost usable component.
pub fn extract_project_name(path: &str) -> (r: String)
    ensures
        r@ == extract_name_spec(path@),
{
    let parts = split_str(path, '/');
    let ghost dv = parts.deep_view();
    let ghost nm = node_modules_name();
    proof {
        reveal_strlit("node_modules");
        assert("node_modules"@ =~= nm);
    }
    let n_parts = parts.len();
    let mut t: usize = n_parts;
    while t > 0
        invariant
            dv == parts.deep_view(),
            t <= n_parts,
            n_parts == dv.len(),
            n_parts == parts@.len(),
            nm == node_modules_name(),
            dv == split_seq(path@, '/'),
            forall|j: int| t <= j < n_parts ==> dv[j] != nm,
        decreases t,
    {
        proof {
            reveal_strlit("node_modules");
            assert("node_modules"@ =~= nm);
        }
        if str_eq(parts[t - 1].as_str(), "node_modules") {
            proof {
                assert(dv[t - 1] == nm);
                dv.index_of_last_ensures(nm);
                if dv.index_of_last(nm) is None {
                    assert(dv.contains(nm));
                    assert(false);
                }
                let i = dv.index_of_last(nm)->0;
                if i > t - 1 {
                    assert(dv[i] != nm);
                    assert(false);
                }
                if i < t - 1 {
                    assert(dv[t - 1] != nm);
                    assert(false);
                }
                assert(dv.index_of_last(nm) == Some(t - 1));
            }
            if t - 1 > 0 {
                return parts[t - 2].clone();
            } else {
                return fallback_scan(&parts, path);
            }
        }
        t = t - 1;
    }
    proof {
        dv.index_of_last_ensures(nm);
        if dv.index_of_last(nm) is Some {
            let i = dv.index_of_last(nm)->0;
            assert(dv[i] != nm);
            assert(false);
        }
    }
    fallback_scan(&parts, path)
}

/// The file that holds every persisted project, inside the data directory.
pub open spec fn projects_file_suffix() -> Seq<char> {
    seq!['/', 'p', 'r', 'o', 'j', 'e', 'c', 't', 's', '.', 'j', 's', 'o', 'n']
}

/// Appends the registry file name to the data directory's path.
pub fn get_projects_file(data_dir: &str) -> (r: String)
    ensures
        r@ == data_dir@ + projects_file_suffix(),
{
    let mut r: String = data_dir.to_owned();
    r.append("/projects.json");
    proof {
        reveal_strlit("/projects.json");
        assert(r@ =~= data_dir@ + projects_file_suffix());
    }
    r
}

} // verus!
