use vstd::prelude::*;
use crate::value::{Doc, Table, Value, find_key, lemma_table_doc};

verus! {

broadcast use vstd::std_specs::vec::group_vec_axioms;

/// A generated package as a story crate: its manifest and identifier.
pub struct StoryCrate {
    /// The manifest handed to the package manager.
    pub cargo: Table,
    pub id: String,
}

/// The part of a package manifest the workspace probe reads.
pub struct Manifest {
    pub workspace: Option<Workspace>,
}

/// A workspace declaration: the member paths it lists.
pub struct Workspace {
    pub members: Vec<String>,
}

/// The project-level override file: override tables keyed by glob pattern.
pub struct Minicrates {
    pub minicrates: Option<Table>,
}

pub open spec fn workspace_key() -> Seq<char> {
    seq!['w', 'o', 'r', 'k', 's', 'p', 'a', 'c', 'e']
}

pub open spec fn members_key() -> Seq<char> {
    seq!['m', 'e', 'm', 'b', 'e', 'r', 's']
}

pub open spec fn minicrates_key() -> Seq<char> {
    seq!['m', 'i', 'n', 'i', 'c', 'r', 'a', 't', 'e', 's']
}

/// The strings of an array of strings; `None` for any other value.
pub open spec fn string_list(d: Doc) -> Option<Seq<Seq<char>>> {
    match d {
        Doc::Array(a) => if forall|k: int| 0 <= k < a.len() ==> (#[trigger] a[k]) is Str {
            Some(a.map_values(|x: Doc| x->Str_0))
        } else {
            None
        },
        _ => None,
    }
}

/// The workspace members a manifest declares: `Some(None)` where it declares
/// no workspace, `None` where the declaration is malformed (not a table, no
/// `members`, or members that are not all strings).
pub open spec fn declared_members(t: Seq<(Seq<char>, Doc)>) -> Option<Option<Seq<Seq<char>>>> {
    let i = find_key(t, workspace_key());
    if i < 0 {
        Some(None)
    } else {
        match t[i].1 {
            Doc::Table(w) => {
                let j = find_key(w, members_key());
                if j < 0 {
                    None
                } else {
                    match string_list(w[j].1) {
                        Some(ms) => Some(Some(ms)),
                        None => None,
                    }
                }
            },
            _ => None,
        }
    }
}

/// The override table of an override file: `Some(None)` where it has none,
/// `None` where the entry is not a table.
pub open spec fn declared_overrides(t: Seq<(Seq<char>, Doc)>) -> Option<
    Option<Seq<(Seq<char>, Doc)>>,
> {
    let i = find_key(t, minicrates_key());
    if i < 0 {
        Some(None)
    } else {
        match t[i].1 {
            Doc::Table(o) => Some(Some(o)),
            _ => None,
        }
    }
}

fn strings_of(v: &Vec<Value>) -> (r: Option<Vec<String>>)
    ensures
        match r {
            Some(ms) => string_list(Value::Array(*v).doc()) == Some(ms@.map_values(|s: String| s@)),
            None => string_list(Value::Array(*v).doc()) is None,
        },
{
    let ghost a = Value::Array(*v).doc()->Array_0;
    let mut out: Vec<String> = Vec::new();
    let mut i: usize = 0;
    while i < v.len()
        invariant
            i <= v@.len(),
            a == Value::Array(*v).doc()->Array_0,
            out@.len() == i,
            forall|k: int| 0 <= k < i ==> (#[trigger] a[k]) is Str && a[k]->Str_0 == out@[k]@,
        decreases v@.len() - i,
    {
        assert(a[i as int] == v@[i as int].doc());
        match &v[i] {
            Value::Str(s) => {
                out.push(s.clone());
            },
            _ => {
                assert(!(a[i as int] is Str));
                return None;
            },
        }
        i = i + 1;
    }
    assert(out@.map_values(|s: String| s@) =~= a.map_values(|x: Doc| x->Str_0));
    Some(out)
}

impl Workspace {
    pub open spec fn members_view(&self) -> Seq<Seq<char>> {
        self.members@.map_values(|s: String| s@)
    }
}

impl Manifest {
    /// The members declared by this manifest, `None` without a workspace.
    pub open spec fn members_view(&self) -> Option<Seq<Seq<char>>> {
        match self.workspace {
            Some(w) => Some(w.members_view()),
            None => None,
        }
    }

    /// Reads the workspace declaration of a manifest (see
    /// `declared_members`); `None` where it is malformed.
    pub fn from_table(t: &Table) -> (r: Option<Manifest>)
        ensures
            match r {
                Some(m) => declared_members(t@) == Some(m.members_view()),
                None => declared_members(t@) is None,
            },
    {
        let wk = "workspace".to_owned();
        let mk = "members".to_owned();
        proof {
            reveal_strlit("workspace");
            reveal_strlit("members");
            assert(wk@ =~= workspace_key());
            assert(mk@ =~= members_key());
        }
        match t.find(&wk) {
            None => Some(Manifest { workspace: None }),
            Some(i) => {
                assert(t@[i as int] == (t.entries@[i as int].0@, t.entries@[i as int].1.doc()));
                match &t.entries[i].1 {
                    Value::Table(w) => {
                        proof {
                            lemma_table_doc(*w);
                        }
                        match w.find(&mk) {
                            None => None,
                            Some(j) => {
                                assert(w@[j as int] == (w.entries@[j as int].0@, w.entries@[j as int].1.doc()));
                                match &w.entries[j].1 {
                                    Value::Array(a) => match strings_of(a) {
                                        Some(ms) => Some(Manifest { workspace: Some(Workspace { members: ms }) }),
                                        None => None,
                                    },
                                    _ => None,
                                }
                            },
                        }
                    },
                    _ => None,
                }
            },
        }
    }
}

impl Minicrates {
    /// Reads the override table of an override file (see
    /// `declared_overrides`); `None` where it is not a table.
    pub fn from_table(t: &Table) -> (r: Option<Minicrates>)
        ensures
            match r {
                Some(m) => declared_overrides(t@) == Some(
                    match m.minicrates {
                        Some(o) => Some(o@),
                        None => None,
                    },
                ),
                None => declared_overrides(t@) is None,
            },
    {
        let key = "minicrates".to_owned();
        proof {
            reveal_strlit("minicrates");
            assert(key@ =~= minicrates_key());
        }
        match t.find(&key) {
            None => Some(Minicrates { minicrates: None }),
            Some(i) => {
                assert(t@[i as int] == (t.entries@[i as int].0@, t.entries@[i as int].1.doc()));
                match &t.entries[i].1 {
                    Value::Table(o) => {
                        proof {
                            lemma_table_doc(*o);
                        }
                        Some(Minicrates { minicrates: Some(o.deep_clone()) })
                    },
                    _ => None,
                }
            },
        }
    }
}

} // verus!
