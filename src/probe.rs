use vstd::prelude::*;
use vstd::string::StringExecFns;

verus! {

/// How many directories the probe examines: the start directory and its
/// nearest ancestors.
pub const PROBE_HOPS: usize = 5;

pub open spec fn generated_dir() -> Seq<char> {
    seq!['m', 'i', 'n', 'i', 'c', 'r', 'a', 't', 'e', 's']
}

/// The path of the generated-packages directory as seen from the ancestor
/// `h` hops above the start directory, whose path components are `comps`.
pub open spec fn member_path(comps: Seq<Seq<char>>, h: nat) -> Seq<char>
    decreases h,
{
    if h == 0 || h > comps.len() {
        generated_dir()
    } else {
        comps[comps.len() - h] + seq!['/'] + member_path(comps, (h - 1) as nat)
    }
}

/// How many directories are examined below a start directory with `n`
/// path components.
pub open spec fn hops(n: nat) -> nat {
    if n + 1 < PROBE_HOPS { n + 1 } else { PROBE_HOPS as nat }
}

/// For the start directory with path components `components` (outermost
/// first), the member path to look for in each examined directory, nearest
/// first: the start directory itself, then its ancestors, at most
/// `PROBE_HOPS` of them.
pub fn probe_plan(components: &Vec<String>) -> (r: Vec<String>)
    ensures
        r@.len() == hops(components@.len()),
        forall|h: int|
            0 <= h < r@.len() ==> #[trigger] r@[h]@ == member_path(
                components@.map_values(|c: String| c@),
                h as nat,
            ),
{
    let ghost comps = components@.map_values(|c: String| c@);
    let n = components.len();
    let count = if n < PROBE_HOPS { n + 1 } else { PROBE_HOPS };
    let mut out: Vec<String> = Vec::new();
    let mut cur = "minicrates".to_owned();
    proof {
        reveal_strlit("minicrates");
        assert(cur@ =~= generated_dir());
    }
    out.push(cur.clone());
    let mut h: usize = 1;
    while h < count
        invariant
            n == components@.len(),
            comps == components@.map_values(|c: String| c@),
            count == hops(n as nat),
            count <= n + 1,
            1 <= h <= count,
            out@.len() == h,
            cur@ == member_path(comps, (h - 1) as nat),
            forall|j: int| 0 <= j < h ==> #[trigger] out@[j]@ == member_path(comps, j as nat),
        decreases count - h,
    {
        let mut next = components[n - h].clone();
        next.append("/");
        next.append(cur.as_str());
        proof {
            reveal_strlit("/");
            assert(next@ =~= comps[n - h] + seq!['/'] + cur@);
        }
        cur = next;
        out.push(cur.clone());
        h = h + 1;
    }
    out
}

/// Whether the workspace declaration of the examined directory `h` lists `p`
/// as a member (`None`: that directory declares no workspace).
pub open spec fn lists_member(declared: Seq<Option<Vec<String>>>, h: int, p: Seq<char>) -> bool {
    &&& 0 <= h < declared.len()
    &&& declared[h] is Some
    &&& exists|k: int|
        0 <= k < declared[h]->Some_0@.len() && #[trigger] declared[h]->Some_0@[k]@ == p
}

/// Whether one of the first `PROBE_HOPS` examined directories declares a
/// workspace listing the member path planned for it.
pub open spec fn registered(plan: Seq<Seq<char>>, declared: Seq<Option<Vec<String>>>) -> bool {
    exists|h: int| 0 <= h < plan.len() && h < PROBE_HOPS && #[trigger] lists_member(declared, h, plan[h])
}

/// Looks through the examined directories, nearest first, for a workspace
/// declaration that lists the generated-packages directory (see
/// `registered`); `declared[h]` holds the members declared in directory `h`.
pub fn workspace_lists_member(plan: &Vec<String>, declared: &Vec<Option<Vec<String>>>) -> (r: bool)
    ensures
        r == registered(plan@.map_values(|s: String| s@), declared@),
{
    let ghost ps = plan@.map_values(|s: String| s@);
    let mut h: usize = 0;
    while h < plan.len() && h < declared.len() && h < PROBE_HOPS
        invariant
            h <= plan@.len(),
            ps == plan@.map_values(|s: String| s@),
            forall|j: int| 0 <= j < h ==> !lists_member(declared@, j, ps[j]),
        decreases plan@.len() - h,
    {
        match &declared[h] {
            Some(members) => {
                let mut k: usize = 0;
                while k < members.len()
                    invariant
                        k <= members@.len(),
                        h < plan@.len(),
                        h < declared@.len(),
                        h < PROBE_HOPS,
                        declared@[h as int] == Some(*members),
                        ps == plan@.map_values(|s: String| s@),
                        forall|j: int| 0 <= j < h ==> !lists_member(declared@, j, ps[j]),
                        forall|i: int| 0 <= i < k ==> members@[i]@ != plan@[h as int]@,
                    decreases members@.len() - k,
                {
                    if members[k] == plan[h] {
                        assert(ps[h as int] == plan@[h as int]@);
                        assert(declared@[h as int]->Some_0@[k as int]@ == ps[h as int]);
                        assert(lists_member(declared@, h as int, ps[h as int]));
                        return true;
                    }
                    k = k + 1;
                }
            },
            None => {},
        }
        assert(!lists_member(declared@, h as int, ps[h as int]));
        h = h + 1;
    }
    assert forall|j: int| 0 <= j < ps.len() && j < PROBE_HOPS implies !lists_member(declared@, j, ps[j]) by {
        if j >= h {
            assert(j >= declared@.len());
        }
    }
    false
}

/// The probe examines no more than the first `PROBE_HOPS` directories: what
/// is declared beyond them never changes its answer.
pub proof fn probe_is_bounded(
    plan: Seq<Seq<char>>,
    d1: Seq<Option<Vec<String>>>,
    d2: Seq<Option<Vec<String>>>,
)
    requires
        d1.len() == d2.len() || (d1.len() >= PROBE_HOPS && d2.len() >= PROBE_HOPS),
        forall|h: int| 0 <= h < PROBE_HOPS && h < d1.len() ==> #[trigger] d1[h] == d2[h],
    ensures
        registered(plan, d1) == registered(plan, d2),
{
    if registered(plan, d1) {
        let h = choose|h: int| 0 <= h < plan.len() && h < PROBE_HOPS && #[trigger] lists_member(d1, h, plan[h]);
        assert(lists_member(d2, h, plan[h]));
    }
    if registered(plan, d2) {
        let h = choose|h: int| 0 <= h < plan.len() && h < PROBE_HOPS && #[trigger] lists_member(d2, h, plan[h]);
        assert(lists_member(d1, h, plan[h]));
    }
}

} // verus!
