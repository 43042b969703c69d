use vstd::prelude::*;

verus! {

broadcast use vstd::std_specs::vec::group_vec_axioms;

/// Structured configuration data: leaf scalars, ordered arrays and
/// ordered-key tables.
#[derive(Debug, PartialEq)]
pub enum Value {
    Str(String),
    Int(i64),
    Bool(bool),
    Array(Vec<Value>),
    Table(Table),
}

/// An ordered-key table: each entry pairs a key with its value.
#[derive(Debug, PartialEq)]
pub struct Table {
    pub entries: Vec<(String, Value)>,
}

/// The mathematical reading of a `Value`.
pub enum Doc {
    Str(Seq<char>),
    Int(int),
    Bool(bool),
    Array(Seq<Doc>),
    Table(Seq<(Seq<char>, Doc)>),
}

impl Value {
    pub open spec fn doc(self) -> Doc
        decreases self,
    {
        match self {
            Value::Str(s) => Doc::Str(s@),
            Value::Int(n) => Doc::Int(n as int),
            Value::Bool(b) => Doc::Bool(b),
            Value::Array(v) => Doc::Array(
                Seq::new(
                    v@.len(),
                    |i: int|
                        if 0 <= i < v@.len() {
                            v@[i].doc()
                        } else {
                            Doc::Bool(false)
                        },
                ),
            ),
            Value::Table(t) => Doc::Table(
                Seq::new(
                    t.entries@.len(),
                    |i: int|
                        if 0 <= i < t.entries@.len() {
                            (t.entries@[i].0@, t.entries@[i].1.doc())
                        } else {
                            (Seq::empty(), Doc::Bool(false))
                        },
                ),
            ),
        }
    }
}

/// The model of a run of table entries.
pub open spec fn entries_doc(s: Seq<(String, Value)>) -> Seq<(Seq<char>, Doc)> {
    Seq::new(
        s.len(),
        |i: int|
            if 0 <= i < s.len() {
                (s[i].0@, s[i].1.doc())
            } else {
                (Seq::empty(), Doc::Bool(false))
            },
    )
}

impl View for Table {
    type V = Seq<(Seq<char>, Doc)>;

    open spec fn view(&self) -> Seq<(Seq<char>, Doc)> {
        entries_doc(self.entries@)
    }
}

/// Index of the first entry of `t` under key `k`, or -1 when there is none.
pub open spec fn find_key(t: Seq<(Seq<char>, Doc)>, k: Seq<char>) -> int {
    if exists|i: int| 0 <= i < t.len() && t[i].0 == k && forall|j: int| 0 <= j < i ==> t[j].0 != k {
        choose|i: int| 0 <= i < t.len() && t[i].0 == k && forall|j: int| 0 <= j < i ==> t[j].0 != k
    } else {
        -1
    }
}

/// Layers one entry `(k, v)` onto table `t`: a new key is appended; where both
/// the present value and `v` are tables they are merged recursively;
/// otherwise `v` replaces the present value in place.
pub open spec fn upsert(t: Seq<(Seq<char>, Doc)>, k: Seq<char>, v: Doc) -> Seq<(Seq<char>, Doc)>
    decreases v,
{
    let i = find_key(t, k);
    if i < 0 {
        t.push((k, v))
    } else {
        match (t[i].1, v) {
            (Doc::Table(x), Doc::Table(y)) => t.update(i, (k, Doc::Table(merge(x, y)))),
            _ => t.update(i, (k, v)),
        }
    }
}

/// Layers every entry of `b`, first to last, onto `a`.
pub open spec fn merge(a: Seq<(Seq<char>, Doc)>, b: Seq<(Seq<char>, Doc)>) -> Seq<(Seq<char>, Doc)>
    decreases b,
{
    if b.len() == 0 {
        a
    } else {
        upsert(merge(a, b.drop_last()), b.last().0, b.last().1)
    }
}


/// Folds `merge` over `ts`, starting from the empty table.
pub open spec fn merge_all(ts: Seq<Seq<(Seq<char>, Doc)>>) -> Seq<(Seq<char>, Doc)>
    decreases ts.len(),
{
    if ts.len() == 0 {
        Seq::empty()
    } else {
        merge(merge_all(ts.drop_last()), ts.last())
    }
}

/// The model of a table value is the model of its entries.
pub proof fn lemma_table_doc(t: Table)
    ensures
        Value::Table(t).doc() == Doc::Table(t@),
{
    assert(Value::Table(t).doc()->Table_0 =~= t@);
}

pub proof fn lemma_entries_doc_push(s: Seq<(String, Value)>, e: (String, Value))
    ensures
        entries_doc(s.push(e)) == entries_doc(s).push((e.0@, e.1.doc())),
{
    assert(entries_doc(s.push(e)) =~= entries_doc(s).push((e.0@, e.1.doc())));
}

pub proof fn lemma_entries_doc_update(s: Seq<(String, Value)>, i: int, e: (String, Value))
    requires
        0 <= i < s.len(),
    ensures
        entries_doc(s.update(i, e)) == entries_doc(s).update(i, (e.0@, e.1.doc())),
{
    assert(entries_doc(s.update(i, e)) =~= entries_doc(s).update(i, (e.0@, e.1.doc())));
}

impl Table {
    /// The empty table.
    pub fn new() -> (r: Table)
        ensures
            r@ == Seq::<(Seq<char>, Doc)>::empty(),
    {
        let r = Table { entries: Vec::new() };
        assert(r@ =~= Seq::<(Seq<char>, Doc)>::empty());
        r
    }

    /// Position of the first entry under `k`.
    pub fn find(&self, k: &String) -> (r: Option<usize>)
        ensures
            match r {
                Some(i) => find_key(self@, k@) == i as int,
                None => find_key(self@, k@) == -1,
            },
    {
        let mut i: usize = 0;
        while i < self.entries.len()
            invariant
                i <= self.entries@.len(),
                forall|j: int| 0 <= j < i ==> self@[j].0 != k@,
            decreases self.entries@.len() - i,
        {
            if self.entries[i].0 == *k {
                let ghost t = self@;
                assert(t[i as int].0 == k@);
                assert(forall|j: int| 0 <= j < i ==> t[j].0 != k@);
                let ghost c = choose|c: int|
                    0 <= c < t.len() && t[c].0 == k@ && forall|j: int| 0 <= j < c ==> t[j].0 != k@;
                assert(c == i as int) by {
                    if c < i {
                    } else if c > i {
                        assert(t[i as int].0 == k@);
                    }
                }
                return Some(i);
            }
            i = i + 1;
        }
        None
    }

    /// Layers the entry `(k, v)` onto this table (see `upsert`).
    pub fn upsert(&mut self, k: String, v: Value)
        ensures
            final(self)@ == upsert(old(self)@, k@, v.doc()),
        decreases v,
    {
        let ghost t = self@;
        match self.find(&k) {
            None => {
                proof {
                    lemma_entries_doc_push(self.entries@, (k, v));
                }
                self.entries.push((k, v));
            },
            Some(i) => {
                let ghost s0 = self.entries@;
                let ghost vd = v.doc();
                let (key, present) = self.entries.remove(i);
                assert(t[i as int].1 == present.doc());
                match (present, v) {
                    (Value::Table(mut x), Value::Table(y)) => {
                        assert(t[i as int].1->Table_0 =~= x@);
                        assert(vd->Table_0 =~= y@);
                        x.merge_from(y);
                        self.entries.insert(i, (k, Value::Table(x)));
                        proof {
                            assert(self.entries@ =~= s0.update(i as int, (k, Value::Table(x))));
                            lemma_entries_doc_update(s0, i as int, (k, Value::Table(x)));
                            assert(Value::Table(x).doc()->Table_0 =~= x@);
                            assert(vd->Table_0 =~= y@);
                        }
                    },
                    (present, v) => {
                        assert(!(t[i as int].1 is Table && vd is Table));
                        self.entries.insert(i, (k, v));
                        proof {
                            assert(self.entries@ =~= s0.update(i as int, (k, v)));
                            lemma_entries_doc_update(s0, i as int, (k, v));
                        }
                    },
                }
            },
        }
    }

    /// Layers every entry of `other`, first to last, onto this table:
    /// tables under a shared key merge recursively, any other value under a
    /// shared key is replaced by the later one.
    pub fn merge_from(&mut self, other: Table)
        ensures
            final(self)@ == merge(old(self)@, other@),
        decreases other,
    {
        let ghost a = self@;
        let ghost b = other@;
        let ghost orig = other.entries@;
        let mut rest = other.entries;
        let _n = rest.len();
        let mut done: usize = 0;
        while rest.len() > 0
            invariant
                done + rest@.len() == orig.len(),
                rest@ == orig.subrange(done as int, orig.len() as int),
                b == entries_doc(orig),
                orig == other.entries@,
                orig.len() <= usize::MAX,
                self@ == merge(a, b.subrange(0, done as int)),
            decreases rest@.len(),
        {
            let (k, v) = rest.remove(0);
            assert(orig[done as int] == (k, v));
            proof {
                assert(done < orig.len());
                assert(orig == other.entries@);
                vstd::std_specs::vec::axiom_vec_index_decreases(other.entries, done as int);
                assert(decreases_to!(other => v));
            }
            self.upsert(k, v);
            proof {
                let p = b.subrange(0, done + 1);
                assert(p.drop_last() =~= b.subrange(0, done as int));
                assert(p.last() == (k@, v.doc()));
            }
            done = done + 1;
            assert(rest@ =~= orig.subrange(done as int, orig.len() as int));
        }
        assert(b.subrange(0, done as int) =~= b);
    }
}

/// Combines any number of tables into one, in order (see `merge_all`).
pub fn combine_tables(tables: Vec<Table>) -> (r: Table)
    ensures
        r@ == merge_all(tables@.map_values(|t: Table| t@)),
{
    let ghost ts = tables@.map_values(|t: Table| t@);
    let mut acc = Table::new();
    let mut rest = tables;
    let mut done: usize = 0;
    let _n = rest.len();
    let ghost orig = rest@;
    while rest.len() > 0
        invariant
            done + rest@.len() == orig.len(),
            rest@ == orig.subrange(done as int, orig.len() as int),
            ts == orig.map_values(|t: Table| t@),
            orig.len() <= usize::MAX,
            acc@ == merge_all(ts.subrange(0, done as int)),
        decreases rest@.len(),
    {
        let t = rest.remove(0);
        assert(orig[done as int] == t);
        acc.merge_from(t);
        proof {
            let p = ts.subrange(0, done + 1);
            assert(p.drop_last() =~= ts.subrange(0, done as int));
        }
        done = done + 1;
        assert(rest@ =~= orig.subrange(done as int, orig.len() as int));
    }
    assert(ts.subrange(0, done as int) =~= ts);
    acc
}


impl Value {
    /// A copy of this value, all the way down.
    pub fn deep_clone(&self) -> (r: Value)
        ensures
            r.doc() == self.doc(),
        decreases self,
    {
        match self {
            Value::Str(s) => Value::Str(s.clone()),
            Value::Int(n) => Value::Int(*n),
            Value::Bool(b) => Value::Bool(*b),
            Value::Array(v) => {
                let mut out: Vec<Value> = Vec::new();
                let mut i: usize = 0;
                while i < v.len()
                    invariant
                        i <= v@.len(),
                        *self == Value::Array(*v),
                        out@.len() == i,
                        forall|j: int| 0 <= j < i ==> #[trigger] out@[j].doc() == v@[j].doc(),
                    decreases v@.len() - i,
                {
                    proof {
                        vstd::std_specs::vec::axiom_vec_index_decreases(*v, i as int);
                        assert(self->Array_0 == *v);
                        assert(decreases_to!(*self => self->Array_0));
                        assert(decreases_to!(*self => v[i as int]));
                    }
                    let c = v[i].deep_clone();
                    out.push(c);
                    i = i + 1;
                }
                let r = Value::Array(out);
                assert forall|j: int| 0 <= j < v@.len() implies r.doc()->Array_0[j] == self.doc()->Array_0[j] by {
                    assert(out@[j].doc() == v@[j].doc());
                }
                assert(r.doc()->Array_0 =~= self.doc()->Array_0);
                r
            },
            Value::Table(t) => {
                let r = t.deep_clone();
                proof {
                    lemma_table_doc(r);
                    lemma_table_doc(*t);
                }
                Value::Table(r)
            },
        }
    }
}

impl Table {
    /// A copy of this table, all the way down.
    pub fn deep_clone(&self) -> (r: Table)
        ensures
            r@ == self@,
        decreases self,
    {
        let mut out: Vec<(String, Value)> = Vec::new();
        let mut i: usize = 0;
        while i < self.entries.len()
            invariant
                i <= self.entries@.len(),
                out@.len() <= usize::MAX,
                out@.len() == i,
                forall|j: int|
                    0 <= j < i ==> (#[trigger] out@[j]).0@ == self.entries@[j].0@ && out@[j].1.doc()
                        == self.entries@[j].1.doc(),
            decreases self.entries@.len() - i,
        {
            proof {
                vstd::std_specs::vec::axiom_vec_index_decreases(self.entries, i as int);
            }
            let k = self.entries[i].0.clone();
            let c = self.entries[i].1.deep_clone();
            out.push((k, c));
            i = i + 1;
        }
        let r = Table { entries: out };
        assert(r@ =~= self@);
        r
    }
}


/// No two entries of `t` share a key.
pub open spec fn keys_unique(t: Seq<(Seq<char>, Doc)>) -> bool {
    forall|i: int, j: int| 0 <= i < j < t.len() ==> #[trigger] t[i].0 != #[trigger] t[j].0
}

/// Every table within `d`, at any depth, holds at most one entry per key.
pub open spec fn well_formed(d: Doc) -> bool
    decreases d,
{
    match d {
        Doc::Table(t) => keys_unique(t) && forall|i: int| 0 <= i < t.len() ==> well_formed(#[trigger] t[i].1),
        Doc::Array(a) => forall|i: int| 0 <= i < a.len() ==> well_formed(#[trigger] a[i]),
        _ => true,
    }
}

proof fn lemma_find_unique(t: Seq<(Seq<char>, Doc)>, k: Seq<char>)
    requires
        keys_unique(t),
    ensures
        find_key(t, k) < 0 ==> forall|i: int| 0 <= i < t.len() ==> t[i].0 != k,
        find_key(t, k) >= 0 ==> 0 <= find_key(t, k) < t.len() && t[find_key(t, k)].0 == k,
{
    assert forall|i: int| 0 <= i < t.len() && t[i].0 == k implies find_key(t, k) >= 0 by {
        assert(forall|j: int| 0 <= j < i ==> t[j].0 != k);
    }
}

proof fn lemma_upsert_well_formed(t: Seq<(Seq<char>, Doc)>, k: Seq<char>, v: Doc)
    requires
        well_formed(Doc::Table(t)),
        well_formed(v),
    ensures
        well_formed(Doc::Table(upsert(t, k, v))),
    decreases v,
{
    lemma_find_unique(t, k);
    let i = find_key(t, k);
    let r = upsert(t, k, v);
    if i >= 0 {
        match (t[i].1, v) {
            (Doc::Table(x), Doc::Table(y)) => {
                lemma_merge_well_formed(x, y);
            },
            _ => {},
        }
        assert(forall|j: int| 0 <= j < r.len() ==> r[j].0 == t[j].0);
    }
    assert(keys_unique(r));
    assert(forall|j: int| 0 <= j < r.len() ==> well_formed(#[trigger] r[j].1));
}

proof fn lemma_merge_well_formed(a: Seq<(Seq<char>, Doc)>, b: Seq<(Seq<char>, Doc)>)
    requires
        well_formed(Doc::Table(a)),
        well_formed(Doc::Table(b)),
    ensures
        well_formed(Doc::Table(merge(a, b))),
    decreases b,
{
    if b.len() > 0 {
        let p = b.drop_last();
        assert(keys_unique(p));
        assert forall|j: int| 0 <= j < p.len() implies well_formed(#[trigger] p[j].1) by {
            assert(p[j] == b[j]);
        }
        assert(well_formed(b.last().1));
        lemma_merge_well_formed(a, p);
        lemma_upsert_well_formed(merge(a, p), b.last().0, b.last().1);
    }
}

/// Merging keeps at most one value per key: where each input holds at most
/// one entry per key, in every table at any depth, so does the merged table.
pub proof fn merged_keys_are_unique(ts: Seq<Seq<(Seq<char>, Doc)>>)
    requires
        forall|i: int| 0 <= i < ts.len() ==> well_formed(Doc::Table(#[trigger] ts[i])),
    ensures
        well_formed(Doc::Table(merge_all(ts))),
    decreases ts.len(),
{
    if ts.len() == 0 {
        assert(well_formed(Doc::Table(Seq::empty())));
    } else {
        let p = ts.drop_last();
        assert forall|i: int| 0 <= i < p.len() implies well_formed(Doc::Table(#[trigger] p[i])) by {
            assert(p[i] == ts[i]);
        }
        merged_keys_are_unique(p);
        assert(well_formed(Doc::Table(ts[ts.len() - 1])));
        lemma_merge_well_formed(merge_all(p), ts.last());
    }
}

} // verus!
