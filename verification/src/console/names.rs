//! Names and paths of processes.

use crate::console::proc::view::{ProcModel, ProcView};
use crate::console::state::procs_view;
use crate::kernel::path::{
    as_component, path_name, path_view, sanitize_component, top_level_path, valid_segment,
    TaskPath,
};
use crate::kernel::task::TaskId;
use crate::text::{decimal, lemma_decimal, opt_chars, push_decimal, str_eq};
use vstd::hash_set::StringHashSet;
use vstd::prelude::*;

verus! {

/// Whether another process has a name.
pub open spec fn taken(procs: Seq<ProcModel>, name: Seq<char>, exclude: Option<TaskId>) -> bool {
    exists|i: int|
        0 <= i < procs.len() && Some((#[trigger] procs[i]).id) != exclude && procs[i].name == name
}

pub open spec fn numbered(base: Seq<char>, n: nat) -> Seq<char> {
    base + "-"@ + decimal(n)
}

/// The first of the names `base-n`, `base-n+1`, .. that is not taken, or the
/// one after `left` of them.
pub open spec fn free_from(
    procs: Seq<ProcModel>,
    base: Seq<char>,
    exclude: Option<TaskId>,
    n: nat,
    left: nat,
) -> Seq<char>
    decreases left,
{
    if left > 0 && taken(procs, numbered(base, n), exclude) {
        free_from(procs, base, exclude, n + 1, (left - 1) as nat)
    } else {
        numbered(base, n)
    }
}

/// As many numbers as there are processes need to be tried, and no more than
/// there are numbers.
pub open spec fn numbers_tried(procs: Seq<ProcModel>) -> nat {
    if procs.len() <= usize::MAX - 2 {
        procs.len()
    } else {
        (usize::MAX - 2) as nat
    }
}

/// A name that no other process has: `base`, or the first of `base-2`,
/// `base-3`, .. that is free.
pub open spec fn unique_name(
    procs: Seq<ProcModel>,
    base: Seq<char>,
    exclude: Option<TaskId>,
) -> Seq<char> {
    if taken(procs, base, exclude) {
        free_from(procs, base, exclude, 2, numbers_tried(procs))
    } else {
        base
    }
}

proof fn lemma_numbered_distinct(base: Seq<char>, a: nat, b: nat)
    requires
        numbered(base, a) == numbered(base, b),
    ensures
        a == b,
{
    let p = base + "-"@;
    assert(decimal(a) =~= numbered(base, a).skip(p.len() as int));
    assert(decimal(b) =~= numbered(base, b).skip(p.len() as int));
    lemma_decimal(a);
    lemma_decimal(b);
}

/// There are no more taken numbers than processes.
proof fn lemma_taken_numbers(
    procs: Seq<ProcModel>,
    base: Seq<char>,
    exclude: Option<TaskId>,
    n: nat,
)
    requires
        forall|k: nat| 2 <= k < 2 + n ==> taken(procs, #[trigger] numbered(base, k), exclude),
    ensures
        n <= procs.len(),
{
    let tried = Seq::new(n, |i: int| numbered(base, (i + 2) as nat));
    let names = procs.map_values(|p: ProcModel| p.name);
    assert(tried.no_duplicates()) by {
        assert forall|i: int, j: int|
            0 <= i < tried.len() && 0 <= j < tried.len() && i != j implies tried[i]
            != tried[j] by {
            if tried[i] == tried[j] {
                lemma_numbered_distinct(base, (i + 2) as nat, (j + 2) as nat);
            }
        }
    }
    assert(tried.to_set().subset_of(names.to_set())) by {
        assert forall|x: Seq<char>| tried.to_set().contains(x) implies names.to_set().contains(
            x,
        ) by {
            let i = choose|i: int| 0 <= i < tried.len() && tried[i] == x;
            assert(taken(procs, numbered(base, (i + 2) as nat), exclude));
            let j = choose|j: int|
                0 <= j < procs.len() && Some((#[trigger] procs[j]).id) != exclude
                    && procs[j].name == x;
            assert(names[j] == x);
        }
    }
    tried.unique_seq_to_set();
    vstd::seq_lib::seq_to_set_is_finite(names);
    vstd::set_lib::lemma_len_subset(tried.to_set(), names.to_set());
    names.lemma_cardinality_of_set();
}

proof fn lemma_free(
    procs: Seq<ProcModel>,
    base: Seq<char>,
    exclude: Option<TaskId>,
    n: nat,
    left: nat,
)
    requires
        2 <= n,
        n + left == 2 + procs.len(),
        forall|k: nat| 2 <= k < n ==> taken(procs, #[trigger] numbered(base, k), exclude),
    ensures
        !taken(procs, free_from(procs, base, exclude, n, left), exclude),
    decreases left,
{
    if taken(procs, numbered(base, n), exclude) {
        if left > 0 {
            lemma_free(procs, base, exclude, n + 1, (left - 1) as nat);
        } else {
            assert forall|k: nat| 2 <= k < 2 + (procs.len() + 1) implies taken(
                procs,
                #[trigger] numbered(base, k),
                exclude,
            ) by {}
            lemma_taken_numbers(procs, base, exclude, procs.len() + 1);
        }
    }
}

/// The name that is chosen for a process is that of no other one.
pub proof fn unique_name_is_free(
    procs: Seq<ProcModel>,
    base: Seq<char>,
    exclude: Option<TaskId>,
)
    requires
        procs.len() <= usize::MAX - 2,
    ensures
        !taken(procs, unique_name(procs, base, exclude), exclude),
{
    if taken(procs, base, exclude) {
        lemma_free(procs, base, exclude, 2, procs.len());
    }
}

fn is_taken(procs: &Vec<ProcView>, name: &str, exclude: Option<TaskId>) -> (r: bool)
    ensures
        r == taken(procs_view(procs@), name@, exclude),
{
    let ghost all = procs_view(procs@);
    let mut i: usize = 0;
    while i < procs.len()
        invariant
            i <= procs@.len(),
            all == procs_view(procs@),
            forall|k: int|
                0 <= k < i ==> !(Some((#[trigger] all[k]).id) != exclude && all[k].name == name@),
        decreases procs@.len() - i,
    {
        let other = match exclude {
            Some(id) => id != procs[i].id,
            None => true,
        };
        if other && str_eq(procs[i].name(), name) {
            proof {
                assert(Some(all[i as int].id) != exclude && all[i as int].name == name@);
            }
            return true;
        }
        i += 1;
    }
    false
}

fn numbered_name(base: &str, n: usize) -> (r: String)
    ensures
        r@ == numbered(base@, n as nat),
{
    let mut s = base.to_owned();
    s.append("-");
    push_decimal(&mut s, n as u64);
    proof {
        assert(s@ =~= numbered(base@, n as nat));
    }
    s
}

/// A name that no other process has.
pub fn unique_proc_name(procs: &Vec<ProcView>, base: &str, exclude: Option<TaskId>) -> (r: String)
    ensures
        r@ == unique_name(procs_view(procs@), base@, exclude),
{
    let ghost all = procs_view(procs@);
    if !is_taken(procs, base, exclude) {
        return base.to_owned();
    }
    let mut left: usize = if procs.len() <= usize::MAX - 2 {
        procs.len()
    } else {
        usize::MAX - 2
    };
    let mut n: usize = 2;
    let mut name = numbered_name(base, n);
    while left > 0 && is_taken(procs, name.as_str(), exclude)
        invariant
            all == procs_view(procs@),
            n + left <= usize::MAX,
            name@ == numbered(base@, n as nat),
            free_from(all, base@, exclude, n as nat, left as nat) == free_from(
                all,
                base@,
                exclude,
                2,
                numbers_tried(all),
            ),
        decreases left,
    {
        n += 1;
        left -= 1;
        name = numbered_name(base, n);
    }
    name
}

/// The path segment of a process: its name, made fit for a path, and its id
/// where that is used already.
pub open spec fn segment_of(name: Seq<char>, id: TaskId, used: Set<Seq<char>>) -> Seq<char> {
    let base = as_component(name);
    if used.contains(base) {
        base + "-"@ + decimal(id.0 as nat)
    } else {
        base
    }
}

/// Chooses the path of a process.
pub fn proc_path(name: &str, id: TaskId, used: &mut StringHashSet) -> (r: Option<TaskPath>)
    ensures
        path_view(r) == Some(seq!['/'] + segment_of(name@, id, old(used)@)),
        final(used)@ == old(used)@.insert(segment_of(name@, id, old(used)@)),
{
    let base = sanitize_component(name);
    let ghost b = base@;
    let seg = if used.contains(base.as_str()) {
        let mut s = base;
        s.append("-");
        push_decimal(&mut s, id.0 as u64);
        proof {
            assert(s@ =~= b + "-"@ + decimal(id.0 as nat));
            reveal_strlit("-");
            lemma_decimal(id.0 as nat);
            assert forall|k: int| 0 <= k < s@.len() implies s@[k] != '/' by {
                if k < b.len() {
                    assert(b.contains(b[k]));
                } else if k > b.len() {
                    assert(crate::text::is_digit(decimal(id.0 as nat)[k - b.len() - 1]));
                }
            }
        }
        s
    } else {
        base
    };
    let mut text = "/".to_owned();
    text.append(seg.as_str());
    proof {
        reveal_strlit("/");
        assert(valid_segment(seg@));
        assert(text@ =~= seq!['/'] + seg@);
        top_level_path(seg@);
    }
    used.insert(seg);
    TaskPath::new(text)
}

/// The name that is shown for a task: its label, the last segment of its path,
/// or its number.
pub open spec fn display_name(
    label: Option<Seq<char>>,
    path: Option<Seq<char>>,
    id: TaskId,
) -> Seq<char> {
    match label {
        Some(l) => l,
        None => match path {
            Some(p) => path_name(p),
            None => "proc-"@ + decimal(id.0 as nat),
        },
    }
}

pub fn proc_display_name(label: Option<String>, path: &Option<TaskPath>, id: TaskId) -> (r: String)
    ensures
        r@ == display_name(opt_chars(label), path_view(*path), id),
{
    match label {
        Some(l) => l,
        None => match path {
            Some(p) => p.name(),
            None => {
                let mut s = "proc-".to_owned();
                push_decimal(&mut s, id.0 as u64);
                s
            },
        },
    }
}

} // verus!
