use vstd::prelude::*;
use crate::value::{
    Doc, Table, Value, find_key, lemma_entries_doc_push, lemma_entries_doc_update, lemma_table_doc,
};
use std::path::Path;
use vstd::string::{StringExecFns, StrSliceExecFns};

verus! {

broadcast use vstd::std_specs::vec::group_vec_axioms;

/// What `path_clean::clean` makes of a path: `.` and `..` segments resolved
/// lexically.
pub uninterp spec fn cleaned(p: Seq<char>) -> Seq<char>;

/// What `pathdiff::diff_paths` makes of `path` relative to `base`.
pub uninterp spec fn path_diff(path: Seq<char>, base: Seq<char>) -> Option<Seq<char>>;

/// Relies on `path_clean::clean`: its result depends on the path alone.
#[verifier::external_body]
fn clean_path(p: &str) -> (r: String)
    ensures
        r@ == cleaned(p@),
{
    path_clean::clean(Path::new(p)).to_string_lossy().to_string()
}

/// Relies on `pathdiff::diff_paths`: its result depends on the two paths
/// alone.
#[verifier::external_body]
fn diff_path(path: &str, base: &str) -> (r: Option<String>)
    ensures
        match r {
            Some(s) => path_diff(path@, base@) == Some(s@),
            None => path_diff(path@, base@) is None,
        },
{
    pathdiff::diff_paths(Path::new(path), Path::new(base)).map(|p| p.to_string_lossy().to_string())
}

/// A path is absolute when it starts at the root.
pub open spec fn is_absolute(p: Seq<char>) -> bool {
    p.len() > 0 && p[0] == '/'
}

/// `p` read from `dir`: an absolute `p` stands for itself; a relative one is
/// appended to `dir` with one separator between them.
pub open spec fn joined(dir: Seq<char>, p: Seq<char>) -> Seq<char> {
    if is_absolute(p) {
        p
    } else if dir.len() == 0 || dir.last() == '/' {
        dir + p
    } else {
        dir + seq!['/'] + p
    }
}

/// Whether `p` starts at the root.
pub fn path_is_absolute(p: &str) -> (r: bool)
    ensures
        r == is_absolute(p@),
{
    let mut it = p.chars();
    match it.next() {
        Some(c) => c == '/',
        None => false,
    }
}


/// `p` read from `dir` (see `joined`).
pub fn join_path(dir: &str, p: &str) -> (r: String)
    ensures
        r@ == joined(dir@, p@),
{
    if path_is_absolute(p) {
        return p.to_owned();
    }
    let n = dir.unicode_len();
    let mut r = dir.to_owned();
    if n == 0 || dir.get_char(n - 1) == '/' {
        r.append(p);
    } else {
        r.append("/");
        r.append(p);
        proof {
            reveal_strlit("/");
        }
        assert(r@ =~= dir@ + seq!['/'] + p@);
    }
    r
}

/// Where a dependency path `p`, written relative to the project root `root`,
/// points when read from the package directory `pkg`: made absolute,
/// normalized, then expressed relative to `pkg`.
pub open spec fn rebased(root: Seq<char>, pkg: Seq<char>, p: Seq<char>) -> Option<Seq<char>> {
    path_diff(cleaned(joined(root, p)), pkg)
}

/// Rebases the dependency path `p` from the project root `root` onto the
/// package directory `pkg` (see `rebased`); `None` where no relative path
/// from `pkg` exists.
pub fn rebase_path(root: &str, pkg: &str, p: &str) -> (r: Option<String>)
    ensures
        match r {
            Some(s) => rebased(root@, pkg@, p@) == Some(s@),
            None => rebased(root@, pkg@, p@) is None,
        },
{
    let abs = join_path(root, p);
    let clean = clean_path(abs.as_str());
    diff_path(clean.as_str(), pkg)
}


/// The key of a dependency's path.
pub open spec fn path_key() -> Seq<char> {
    seq!['p', 'a', 't', 'h']
}

/// The key of the dependency table in a manifest.
pub open spec fn dependencies_key() -> Seq<char> {
    seq!['d', 'e', 'p', 'e', 'n', 'd', 'e', 'n', 'c', 'i', 'e', 's']
}

/// One dependency entry with its `path` string rebased; entries that are not
/// tables, or carry no string `path`, are left as they are.
pub open spec fn rewrite_dep(root: Seq<char>, pkg: Seq<char>, d: Doc) -> Option<Doc> {
    match d {
        Doc::Table(t) => {
            let j = find_key(t, path_key());
            if j >= 0 {
                match t[j].1 {
                    Doc::Str(p) => match rebased(root, pkg, p) {
                        Some(q) => Some(Doc::Table(t.update(j, (t[j].0, Doc::Str(q))))),
                        None => None,
                    },
                    _ => Some(d),
                }
            } else {
                Some(d)
            }
        },
        _ => Some(d),
    }
}

/// Every dependency entry of `s` rewritten; `None` where one cannot be.
pub open spec fn rewrite_deps(root: Seq<char>, pkg: Seq<char>, s: Seq<(Seq<char>, Doc)>) -> Option<
    Seq<(Seq<char>, Doc)>,
>
    decreases s.len(),
{
    if s.len() == 0 {
        Some(s)
    } else {
        match (rewrite_deps(root, pkg, s.drop_last()), rewrite_dep(root, pkg, s.last().1)) {
            (Some(a), Some(d)) => Some(a.push((s.last().0, d))),
            _ => None,
        }
    }
}

/// A manifest with the paths of its dependency table rebased; a manifest
/// without such a table is left as it is.
pub open spec fn rewrite_manifest(root: Seq<char>, pkg: Seq<char>, t: Seq<(Seq<char>, Doc)>) -> Option<
    Seq<(Seq<char>, Doc)>,
> {
    let i = find_key(t, dependencies_key());
    if i >= 0 && t[i].1 is Table {
        match rewrite_deps(root, pkg, t[i].1->Table_0) {
            Some(d) => Some(t.update(i, (t[i].0, Doc::Table(d)))),
            None => None,
        }
    } else {
        Some(t)
    }
}

fn rewrite_dependency(root: &str, pkg: &str, v: Value) -> (r: Option<Value>)
    ensures
        match r {
            Some(w) => rewrite_dep(root@, pkg@, v.doc()) == Some(w.doc()),
            None => rewrite_dep(root@, pkg@, v.doc()) is None,
        },
{
    match v {
        Value::Table(mut t) => {
            proof {
                lemma_table_doc(t);
            }
            let key = "path".to_owned();
            proof {
                reveal_strlit("path");
                assert(key@ =~= path_key());
            }
            match t.find(&key) {
                None => Some(Value::Table(t)),
                Some(j) => {
                    let ghost s0 = t.entries@;
                    let ghost d0 = t@;
                    let (k, val) = t.entries.remove(j);
                    assert(d0[j as int] == (k@, val.doc()));
                    match val {
                        Value::Str(p) => match rebase_path(root, pkg, p.as_str()) {
                            Some(q) => {
                                let ghost kq = k;
                                t.entries.insert(j, (k, Value::Str(q)));
                                proof {
                                    assert(t.entries@ =~= s0.update(j as int, (kq, Value::Str(q))));
                                    lemma_entries_doc_update(s0, j as int, (kq, Value::Str(q)));
                                    lemma_table_doc(t);
                                }
                                Some(Value::Table(t))
                            },
                            None => None,
                        },
                        other => {
                            t.entries.insert(j, (k, other));
                            proof {
                                assert(t.entries@ =~= s0);
                                lemma_table_doc(t);
                            }
                            Some(Value::Table(t))
                        },
                    }
                },
            }
        },
        other => Some(other),
    }
}


fn rewrite_dependency_table(root: &str, pkg: &str, deps: Table) -> (r: Option<Table>)
    ensures
        match r {
            Some(t) => rewrite_deps(root@, pkg@, deps@) == Some(t@),
            None => rewrite_deps(root@, pkg@, deps@) is None,
        },
{
    let ghost orig = deps.entries@;
    let ghost d = deps@;
    let mut rest = deps.entries;
    let _n = rest.len();
    let mut out = Table::new();
    let mut done: usize = 0;
    while rest.len() > 0
        invariant
            done + rest@.len() == orig.len(),
            orig.len() <= usize::MAX,
            rest@ == orig.subrange(done as int, orig.len() as int),
            d == crate::value::entries_doc(orig),
            d == deps@,
            rewrite_deps(root@, pkg@, d.subrange(0, done as int)) == Some(out@),
        decreases rest@.len(),
    {
        let (k, v) = rest.remove(0);
        assert(orig[done as int] == (k, v));
        let ghost vd = v.doc();
        proof {
            let p = d.subrange(0, done + 1);
            assert(p.drop_last() =~= d.subrange(0, done as int));
            assert(p.last() == (k@, vd));
        }
        match rewrite_dependency(root, pkg, v) {
            Some(w) => {
                proof {
                    lemma_entries_doc_push(out.entries@, (k, w));
                }
                out.entries.push((k, w));
            },
            None => {
                proof {
                    let p = d.subrange(0, done + 1);
                    assert(p.drop_last() =~= d.subrange(0, done as int));
                    assert(rewrite_deps(root@, pkg@, p) is None);
                    lemma_rewrite_deps_none(root@, pkg@, d, done as int + 1);
                    assert(d == deps@);
                }
                return None;
            },
        }
        done = done + 1;
        assert(rest@ =~= orig.subrange(done as int, orig.len() as int));
    }
    assert(d.subrange(0, done as int) =~= d);
    Some(out)
}

proof fn lemma_rewrite_deps_none(root: Seq<char>, pkg: Seq<char>, s: Seq<(Seq<char>, Doc)>, n: int)
    requires
        0 < n <= s.len(),
        rewrite_deps(root, pkg, s.subrange(0, n)) is None,
    ensures
        rewrite_deps(root, pkg, s) is None,
    decreases s.len() - n,
{
    if n < s.len() {
        let p = s.subrange(0, n + 1);
        assert(p.drop_last() =~= s.subrange(0, n));
        lemma_rewrite_deps_none(root, pkg, s, n + 1);
    } else {
        assert(s.subrange(0, n) =~= s);
    }
}

/// Rebases the `path` of every entry of the manifest's dependency table from
/// the project root `root` onto the package directory `pkg` (see
/// `rewrite_manifest`); `None` where a path cannot be expressed relative to
/// `pkg`.
pub fn rewrite_dependency_paths(manifest: Table, root: &str, pkg: &str) -> (r: Option<Table>)
    ensures
        match r {
            Some(t) => rewrite_manifest(root@, pkg@, manifest@) == Some(t@),
            None => rewrite_manifest(root@, pkg@, manifest@) is None,
        },
{
    let mut t = manifest;
    let key = "dependencies".to_owned();
    proof {
        reveal_strlit("dependencies");
        assert(key@ =~= dependencies_key());
    }
    match t.find(&key) {
        None => Some(t),
        Some(i) => {
            let ghost s0 = t.entries@;
            let ghost d0 = t@;
            let (k, val) = t.entries.remove(i);
            assert(d0[i as int] == (k@, val.doc()));
            match val {
                Value::Table(deps) => {
                    proof {
                        lemma_table_doc(deps);
                    }
                    match rewrite_dependency_table(root, pkg, deps) {
                        Some(nd) => {
                            let ghost kn = k;
                            t.entries.insert(i, (k, Value::Table(nd)));
                            proof {
                                assert(t.entries@ =~= s0.update(i as int, (kn, Value::Table(nd))));
                                lemma_entries_doc_update(s0, i as int, (kn, Value::Table(nd)));
                                lemma_table_doc(nd);
                            }
                            Some(t)
                        },
                        None => None,
                    }
                },
                other => {
                    t.entries.insert(i, (k, other));
                    assert(t.entries@ =~= s0);
                    Some(t)
                },
            }
        },
    }
}

} // verus!
