use vstd::prelude::*;
use crate::value::{Doc, Table, Value, combine_tables, lemma_table_doc, merge_all};
use crate::paths::{rewrite_dependency_paths, rewrite_manifest};
use std::hash::BuildHasher;
use vstd::string::{StringExecFns, StrSliceExecFns};

verus! {

broadcast use vstd::std_specs::vec::group_vec_axioms;

/// The fixed seed of the fragment identifiers: never drawn per run, so that
/// identifiers are stable across runs.
pub const ID_SEED: usize = 42;

/// What `ahash::RandomState::with_seed(seed).hash_one` gives for the path `p`.
pub uninterp spec fn path_hash(seed: usize, p: Seq<char>) -> u64;

/// Relies on `ahash::RandomState::with_seed` and `hash_one`: built without
/// run-time randomness, the hasher's keys come from the seed and fixed
/// constants, so the result depends on the seed and the path alone.
#[verifier::external_body]
fn seeded_path_hash(seed: usize, p: &str) -> (r: u64)
    ensures
        r == path_hash(seed, p@),
{
    ahash::RandomState::with_seed(seed).hash_one(std::path::PathBuf::from(p))
}

/// The identifier of a fragment path.
pub open spec fn fragment_id(p: Seq<char>) -> u64 {
    path_hash(ID_SEED, p)
}

/// The identifier table of a run: each fragment with its identifier, in
/// discovery order.
pub open spec fn id_table(fragments: Seq<Seq<char>>) -> Seq<(Seq<char>, u64)> {
    fragments.map_values(|p: Seq<char>| (p, fragment_id(p)))
}

/// Assigns each fragment path its identifier.
pub fn identify(fragments: &Vec<String>) -> (r: Vec<(String, u64)>)
    ensures
        r@.map_values(|e: (String, u64)| (e.0@, e.1)) == id_table(
            fragments@.map_values(|s: String| s@),
        ),
{
    let mut out: Vec<(String, u64)> = Vec::new();
    let mut i: usize = 0;
    while i < fragments.len()
        invariant
            i <= fragments@.len(),
            out@.len() == i,
            forall|j: int|
                0 <= j < i ==> (#[trigger] out@[j]).0@ == fragments@[j]@ && out@[j].1 == fragment_id(
                    fragments@[j]@,
                ),
        decreases fragments@.len() - i,
    {
        let p = fragments[i].clone();
        let id = seeded_path_hash(ID_SEED, p.as_str());
        out.push((p, id));
        i = i + 1;
    }
    assert(out@.map_values(|e: (String, u64)| (e.0@, e.1)) =~= id_table(
        fragments@.map_values(|s: String| s@),
    ));
    out
}

/// Identifiers are a function of the path: the same fragments give the same
/// identifier table on every run.
pub proof fn identifiers_are_deterministic(a: Seq<Seq<char>>, b: Seq<Seq<char>>)
    requires
        a == b,
    ensures
        id_table(a) == id_table(b),
        forall|i: int| 0 <= i < a.len() ==> #[trigger] id_table(a)[i].1 == fragment_id(b[i]),
{
}

/// The decimal digits of `n`.
pub open spec fn decimal(n: nat) -> Seq<char>
    decreases n,
{
    if n < 10 {
        seq![digit(n)]
    } else {
        decimal(n / 10).push(digit(n % 10))
    }
}

pub open spec fn digit(d: nat) -> char {
    if d == 0 { '0' } else if d == 1 { '1' } else if d == 2 { '2' } else if d == 3 { '3' }
    else if d == 4 { '4' } else if d == 5 { '5' } else if d == 6 { '6' } else if d == 7 { '7' }
    else if d == 8 { '8' } else { '9' }
}

/// Relies on `u64`'s `to_string`: its decimal digits, without sign or padding.
#[verifier::external_body]
fn decimal_string(n: u64) -> (r: String)
    ensures
        r@ == decimal(n as nat),
{
    n.to_string()
}

pub open spec fn name_prefix() -> Seq<char> {
    seq!['m', 'i', 'n', 'i', 'c', 'r', 'a', 't', 'e', 's', '-']
}

/// The manifest every package starts from: its name, derived from the
/// identifier, and a dynamic-library crate type.
pub open spec fn base_doc(id: u64) -> Seq<(Seq<char>, Doc)> {
    seq![
        (seq!['p', 'a', 'c', 'k', 'a', 'g', 'e'], Doc::Table(
            seq![(seq!['n', 'a', 'm', 'e'], Doc::Str(name_prefix() + decimal(id as nat)))],
        )),
        (seq!['l', 'i', 'b'], Doc::Table(
            seq![(seq!['c', 'r', 'a', 't', 'e', '-', 't', 'y', 'p', 'e'], Doc::Array(
                seq![Doc::Str(seq!['d', 'y', 'l', 'i', 'b'])],
            ))],
        )),
    ]
}

fn single(k: &str, v: Value) -> (r: Table)
    ensures
        r@ == seq![(k@, v.doc())],
{
    let mut entries: Vec<(String, Value)> = Vec::new();
    entries.push((k.to_owned(), v));
    let r = Table { entries };
    assert(r@ =~= seq![(k@, v.doc())]);
    r
}

/// The manifest a package with identifier `id` starts from (see `base_doc`).
pub fn base_manifest(id: u64) -> (r: Table)
    ensures
        r@ == base_doc(id),
{
    let mut name = "minicrates-".to_owned();
    let digits = decimal_string(id);
    name.append(digits.as_str());
    let package = single("name", Value::Str(name));
    let mut kind_list: Vec<Value> = Vec::new();
    let dylib = "dylib".to_owned();
    proof {
        reveal_strlit("dylib");
        assert(dylib@ =~= seq!['d', 'y', 'l', 'i', 'b']);
    }
    kind_list.push(Value::Str(dylib));
    assert(kind_list@.len() == 1 && kind_list@[0].doc() == Doc::Str(seq!['d', 'y', 'l', 'i', 'b']));
    let kinds = Value::Array(kind_list);
    proof {
        reveal_strlit("minicrates-");
        reveal_strlit("name");
        reveal_strlit("dylib");
        reveal_strlit("crate-type");
        reveal_strlit("package");
        reveal_strlit("lib");
        assert("name"@ =~= seq!['n', 'a', 'm', 'e']);
        assert("crate-type"@ =~= seq!['c', 'r', 'a', 't', 'e', '-', 't', 'y', 'p', 'e']);
        assert("package"@ =~= seq!['p', 'a', 'c', 'k', 'a', 'g', 'e']);
        assert("lib"@ =~= seq!['l', 'i', 'b']);
        assert("minicrates-"@ =~= name_prefix());
        assert(kinds.doc()->Array_0 =~= seq![Doc::Str(seq!['d', 'y', 'l', 'i', 'b'])]);
        assert(name@ =~= name_prefix() + decimal(id as nat));
    }
    let lib = single("crate-type", kinds);
    proof {
        lemma_table_doc(package);
        lemma_table_doc(lib);
    }
    let mut entries: Vec<(String, Value)> = Vec::new();
    entries.push(("package".to_owned(), Value::Table(package)));
    entries.push(("lib".to_owned(), Value::Table(lib)));
    let r = Table { entries };
    assert(r@ =~= base_doc(id));
    r
}


/// The manifest of a package: its base manifest, then each selected override
/// in order, merged, with dependency paths rebased from `root` onto `pkg`.
pub open spec fn package_doc(
    id: u64,
    overrides: Seq<Seq<(Seq<char>, Doc)>>,
    root: Seq<char>,
    pkg: Seq<char>,
) -> Option<Seq<(Seq<char>, Doc)>> {
    rewrite_manifest(root, pkg, merge_all(seq![base_doc(id)] + overrides))
}

/// Builds the manifest of the package with identifier `id`, living in
/// `pkg`, from the overrides selected for its fragment (see `package_doc`);
/// `None` where a dependency path cannot be rebased onto `pkg`.
pub fn package_manifest(id: u64, overrides: Vec<Table>, root: &str, pkg: &str) -> (r: Option<Table>)
    ensures
        match r {
            Some(t) => package_doc(id, overrides@.map_values(|t: Table| t@), root@, pkg@) == Some(t@),
            None => package_doc(id, overrides@.map_values(|t: Table| t@), root@, pkg@) is None,
        },
{
    let mut tables: Vec<Table> = Vec::new();
    tables.push(base_manifest(id));
    let mut rest = overrides;
    tables.append(&mut rest);
    assert(tables@.map_values(|t: Table| t@) =~= seq![base_doc(id)] + overrides@.map_values(
        |t: Table| t@,
    ));
    let merged = combine_tables(tables);
    rewrite_dependency_paths(merged, root, pkg)
}

/// The file-name suffix of a fragment.
pub open spec fn fragment_suffix() -> Seq<char> {
    seq!['.', 'm', 'i', 'n', 'i', '.', 'r', 's']
}

/// The package directory name of a fragment file: its name with the fragment
/// suffix taken off; `None` where the name lacks the suffix.
pub open spec fn dir_name(file_name: Seq<char>) -> Option<Seq<char>> {
    let n = file_name.len();
    if n >= 8 && file_name.subrange(n - 8, n as int) == fragment_suffix() {
        Some(file_name.subrange(0, n - 8))
    } else {
        None
    }
}

/// The package directory name of a fragment file (see `dir_name`).
pub fn package_dir_name(file_name: &str) -> (r: Option<String>)
    ensures
        match r {
            Some(s) => dir_name(file_name@) == Some(s@),
            None => dir_name(file_name@) is None,
        },
{
    let n = file_name.unicode_len();
    if n < 8 {
        return None;
    }
    let suffix = ".mini.rs";
    proof {
        reveal_strlit(".mini.rs");
        assert(suffix@ =~= fragment_suffix());
    }
    let mut i: usize = 0;
    while i < 8
        invariant
            n == file_name@.len(),
            n >= 8,
            suffix@ == fragment_suffix(),
            i <= 8,
            forall|j: int| 0 <= j < i ==> file_name@[n - 8 + j] == suffix@[j],
        decreases 8 - i,
    {
        if file_name.get_char(n - 8 + i) != suffix.get_char(i) {
            assert(file_name@.subrange(n - 8, n as int)[i as int] != fragment_suffix()[i as int]);
            return None;
        }
        i = i + 1;
    }
    assert(file_name@.subrange(n - 8, n as int) =~= fragment_suffix());
    Some(file_name.substring_char(0, n - 8).to_owned())
}

/// What occupies a package's target path before generation.
#[derive(PartialEq, Eq, Structural, Clone, Copy, Debug)]
pub enum TargetKind {
    Missing,
    Directory,
    File,
    Symlink,
}

/// How to clear a package's target path.
#[derive(PartialEq, Eq, Structural, Clone, Copy, Debug)]
pub enum Preparation {
    /// Nothing is there: create the package.
    Create,
    /// A stale package directory is there: remove it whole, then create.
    ReplaceDirectory,
}

/// A foreign object occupies a package's target path.
#[derive(PartialEq, Eq, Structural, Clone, Copy, Debug)]
pub enum TargetConflict {
    OccupiedByFile,
    OccupiedBySymlink,
}

/// Decides how to clear a package's target path: a directory is stale and
/// replaced, a file or a symbolic link is a conflict, left untouched.
pub fn prepare_target(kind: TargetKind) -> (r: Result<Preparation, TargetConflict>)
    ensures
        kind == TargetKind::Missing <==> r == Ok::<Preparation, TargetConflict>(Preparation::Create),
        kind == TargetKind::Directory <==> r == Ok::<Preparation, TargetConflict>(
            Preparation::ReplaceDirectory,
        ),
        kind == TargetKind::File <==> r == Err::<Preparation, TargetConflict>(
            TargetConflict::OccupiedByFile,
        ),
        kind == TargetKind::Symlink <==> r == Err::<Preparation, TargetConflict>(
            TargetConflict::OccupiedBySymlink,
        ),
{
    match kind {
        TargetKind::Missing => Ok(Preparation::Create),
        TargetKind::Directory => Ok(Preparation::ReplaceDirectory),
        TargetKind::File => Err(TargetConflict::OccupiedByFile),
        TargetKind::Symlink => Err(TargetConflict::OccupiedBySymlink),
    }
}


/// Synthesis is a function of its inputs: re-running it over the same
/// fragments, override selections, project root and package directories
/// gives the same identifier table and the same package manifests.
pub proof fn rerun_is_identical(
    fragments: Seq<Seq<char>>,
    overrides: Seq<Seq<Seq<(Seq<char>, Doc)>>>,
    root: Seq<char>,
    pkgs: Seq<Seq<char>>,
    fragments2: Seq<Seq<char>>,
    overrides2: Seq<Seq<Seq<(Seq<char>, Doc)>>>,
    root2: Seq<char>,
    pkgs2: Seq<Seq<char>>,
)
    requires
        fragments == fragments2,
        overrides == overrides2,
        root == root2,
        pkgs == pkgs2,
        overrides.len() == fragments.len(),
        pkgs.len() == fragments.len(),
    ensures
        id_table(fragments) == id_table(fragments2),
        forall|i: int|
            0 <= i < fragments.len() ==> #[trigger] package_doc(
                fragment_id(fragments[i]),
                overrides[i],
                root,
                pkgs[i],
            ) == package_doc(fragment_id(fragments2[i]), overrides2[i], root2, pkgs2[i]),
{
}

} // verus!
