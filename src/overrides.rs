use vstd::prelude::*;
use crate::value::{Doc, Table, Value, lemma_table_doc};
use vstd::string::StringExecFns;

verus! {

broadcast use vstd::std_specs::vec::group_vec_axioms;

/// What `glob::Pattern` makes of `path` against `pattern`: `None` where the
/// pattern is malformed, else whether it matches.
pub uninterp spec fn glob_match(pattern: Seq<char>, path: Seq<char>) -> Option<bool>;

/// Relies on `glob::Pattern::new` and `glob::Pattern::matches`: whether the
/// pattern parses, and whether it matches, depend on the two strings alone.
#[verifier::external_body]
fn pattern_matches(pattern: &str, path: &str) -> (r: Option<bool>)
    ensures
        r == glob_match(pattern@, path@),
{
    match glob::Pattern::new(pattern) {
        Ok(p) => Some(p.matches(path)),
        Err(_) => None,
    }
}

/// An override key is a pattern anchored at the project root.
pub open spec fn anchored(root: Seq<char>, key: Seq<char>) -> Seq<char> {
    root + seq!['/'] + key
}

/// Why override selection failed.
#[derive(Debug, PartialEq)]
pub enum OverrideError {
    /// The key is not a well-formed glob pattern.
    BadPattern(String),
    /// The value under a matching key is not a table.
    NotATable(String),
}

/// The override tables among `t`, in order, whose anchored key matches
/// `fragment`; `None` where a key is malformed or a matching value is not a
/// table.
pub open spec fn selection(root: Seq<char>, fragment: Seq<char>, t: Seq<(Seq<char>, Doc)>) -> Option<
    Seq<Seq<(Seq<char>, Doc)>>,
>
    decreases t.len(),
{
    if t.len() == 0 {
        Some(Seq::empty())
    } else {
        match selection(root, fragment, t.drop_last()) {
            None => None,
            Some(acc) => match glob_match(anchored(root, t.last().0), fragment) {
                None => None,
                Some(false) => Some(acc),
                Some(true) => match t.last().1 {
                    Doc::Table(x) => Some(acc.push(x)),
                    _ => None,
                },
            },
        }
    }
}

proof fn lemma_selection_none(root: Seq<char>, frag: Seq<char>, s: Seq<(Seq<char>, Doc)>, n: int)
    requires
        0 < n <= s.len(),
        selection(root, frag, s.subrange(0, n)) is None,
    ensures
        selection(root, frag, s) is None,
    decreases s.len() - n,
{
    if n < s.len() {
        let p = s.subrange(0, n + 1);
        assert(p.drop_last() =~= s.subrange(0, n));
        lemma_selection_none(root, frag, s, n + 1);
    } else {
        assert(s.subrange(0, n) =~= s);
    }
}

/// Selects, in declaration order, copies of the override tables of
/// `overrides` whose key, anchored at `root`, matches the fragment path.
pub fn select_overrides(root: &str, overrides: &Table, fragment: &str) -> (r: Result<
    Vec<Table>,
    OverrideError,
>)
    ensures
        match r {
            Ok(v) => selection(root@, fragment@, overrides@) == Some(v@.map_values(|t: Table| t@)),
            Err(_) => selection(root@, fragment@, overrides@) is None,
        },
        r matches Err(OverrideError::BadPattern(k)) ==> exists|i: int|
            0 <= i < overrides@.len() && #[trigger] overrides@[i].0 == k@ && glob_match(
                anchored(root@, k@),
                fragment@,
            ) is None,
        r matches Err(OverrideError::NotATable(k)) ==> exists|i: int|
            0 <= i < overrides@.len() && #[trigger] overrides@[i].0 == k@ && glob_match(
                anchored(root@, k@),
                fragment@,
            ) == Some(true) && !(overrides@[i].1 is Table),
{
    let ghost d = overrides@;
    let mut out: Vec<Table> = Vec::new();
    let mut i: usize = 0;
    while i < overrides.entries.len()
        invariant
            i <= overrides.entries@.len(),
            d == overrides@,
            selection(root@, fragment@, d.subrange(0, i as int)) == Some(
                out@.map_values(|t: Table| t@),
            ),
        decreases overrides.entries@.len() - i,
    {
        let key = &overrides.entries[i].0;
        let mut pattern = root.to_owned();
        pattern.append("/");
        pattern.append(key.as_str());
        proof {
            reveal_strlit("/");
            assert(pattern@ =~= anchored(root@, key@));
            let p = d.subrange(0, i + 1);
            assert(p.drop_last() =~= d.subrange(0, i as int));
            assert(p.last() == (key@, overrides.entries@[i as int].1.doc()));
        }
        match pattern_matches(pattern.as_str(), fragment) {
            None => {
                proof {
                    lemma_selection_none(root@, fragment@, d, i + 1);
                }
                let k = key.clone();
                assert(overrides@[i as int].0 == k@);
                return Err(OverrideError::BadPattern(k));
            },
            Some(false) => {},
            Some(true) => match &overrides.entries[i].1 {
                Value::Table(t) => {
                    let c = t.deep_clone();
                    proof {
                        lemma_table_doc(*t);
                    }
                    out.push(c);

                },
                _ => {
                    proof {
                        lemma_selection_none(root@, fragment@, d, i + 1);
                    }
                    let k = key.clone();
                    assert(overrides@[i as int].0 == k@);
                    return Err(OverrideError::NotATable(k));
                },
            },
        }
        i = i + 1;
    }
    assert(d.subrange(0, i as int) =~= d);
    Ok(out)
}

} // verus!
