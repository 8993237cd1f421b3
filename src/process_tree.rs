//! Discovery of a process tree in a snapshot of the process table, and the
//! order in which a tree is suspended, resumed and terminated.
use vstd::prelude::*;

verus! {

/// One row of a process table snapshot.
#[derive(Clone, Copy, PartialEq, Eq, Structural, Debug)]
pub struct ProcessEntry {
    pub pid: u32,
    pub parent_pid: u32,
}

/// Whether `p` is the root or one of the first `n` ids of `found`.
pub open spec fn expanded_by(root: u32, found: Seq<u32>, n: int, p: u32) -> bool {
    p == root || exists|j: int| 0 <= j < n && found[j] == p
}

/// Every id in `found` is the id of a row whose parent is the root or an id
/// listed before it.
pub open spec fn discovered_in_order(table: Seq<ProcessEntry>, root: u32, found: Seq<u32>) -> bool {
    forall|i: int| 0 <= i < found.len() ==> #[trigger] discovered_at(table, root, found, i)
}

/// The id at `i` of `found` is the id of a row whose parent is the root or an
/// id listed before it.
pub open spec fn discovered_at(table: Seq<ProcessEntry>, root: u32, found: Seq<u32>, i: int) -> bool {
    exists|k: int|
        0 <= k < table.len() && table[k].pid == found[i] && expanded_by(
            root,
            found,
            i,
            table[k].parent_pid,
        )
}

/// Every row whose parent is the root or an id in `found` has its id in
/// `found`.
pub open spec fn closed_under_children(table: Seq<ProcessEntry>, root: u32, found: Seq<u32>) -> bool {
    forall|k: int|
        #![trigger table[k]]
        0 <= k < table.len() && (table[k].parent_pid == root || found.contains(table[k].parent_pid))
            ==> found.contains(table[k].pid)
}

/// `found` lists the descendants of `root` in `table`, each once: the
/// smallest set of ids that holds every child of the root and of its own
/// members.
pub open spec fn is_descendant_list(table: Seq<ProcessEntry>, root: u32, found: Seq<u32>) -> bool {
    &&& found.no_duplicates()
    &&& discovered_in_order(table, root, found)
    &&& closed_under_children(table, root, found)
}

/// Whether some row of `table` has the id `pid`.
pub open spec fn in_table(table: Seq<ProcessEntry>, pid: u32) -> bool {
    exists|k: int| 0 <= k < table.len() && table[k].pid == pid
}

/// `found` followed by the ids of the rows of `rows` whose parent is
/// `parent` and that are not listed yet, in the order of the rows.
pub open spec fn scan_children(rows: Seq<ProcessEntry>, parent: u32, found: Seq<u32>) -> Seq<u32>
    decreases rows.len(),
{
    if rows.len() == 0 {
        found
    } else {
        let next = if rows[0].parent_pid == parent && !found.contains(rows[0].pid) {
            found.push(rows[0].pid)
        } else {
            found
        };
        scan_children(rows.drop_first(), parent, next)
    }
}

/// Breadth-first expansion of `found` from position `head` on: the new
/// children of `found[head]`, then of each later entry, for at most `steps`
/// entries.
pub open spec fn expand_from(table: Seq<ProcessEntry>, found: Seq<u32>, head: nat, steps: nat) -> Seq<
    u32,
>
    decreases steps,
{
    if steps == 0 || head >= found.len() {
        found
    } else {
        expand_from(table, scan_children(table, found[head as int], found), head + 1, (steps - 1) as nat)
    }
}

/// The descendants of `root` in breadth-first order: the children of the
/// root in table order, then the new children of each listed process in
/// turn.
pub open spec fn breadth_first_descendants(table: Seq<ProcessEntry>, root: u32) -> Seq<u32> {
    expand_from(table, scan_children(table, root, Seq::empty()), 0, table.len())
}

proof fn lemma_bounded(table: Seq<ProcessEntry>, found: Seq<u32>)
    requires
        found.no_duplicates(),
        forall|i: int| 0 <= i < found.len() ==> #[trigger] in_table(table, found[i]),
    ensures
        found.len() <= table.len(),
{
    let pids = table.map_values(|e: ProcessEntry| e.pid);
    assert forall|x: u32| found.to_set().contains(x) implies pids.to_set().contains(x) by {
        let i = choose|i: int| 0 <= i < found.len() && found[i] == x;
        assert(in_table(table, found[i]));
        let k = choose|k: int| 0 <= k < table.len() && table[k].pid == found[i];
        assert(pids[k] == x);
    }
    found.unique_seq_to_set();
    pids.lemma_cardinality_of_set();
    vstd::set_lib::lemma_len_subset(found.to_set(), pids.to_set());
}

proof fn lemma_discovered_bounded(table: Seq<ProcessEntry>, root: u32, found: Seq<u32>)
    requires
        found.no_duplicates(),
        discovered_in_order(table, root, found),
    ensures
        found.len() <= table.len(),
{
    assert forall|i: int| 0 <= i < found.len() implies #[trigger] in_table(table, found[i]) by {
        assert(discovered_at(table, root, found, i));
        let k = choose|k: int|
            0 <= k < table.len() && table[k].pid == found[i] && expanded_by(
                root,
                found,
                i,
                table[k].parent_pid,
            );
    }
    lemma_bounded(table, found);
}

fn contains_pid(v: &Vec<u32>, x: u32) -> (r: bool)
    ensures
        r == v@.contains(x),
{
    let mut i: usize = 0;
    while i < v.len()
        invariant
            i <= v@.len(),
            forall|j: int| 0 <= j < i ==> v@[j] != x,
        decreases v@.len() - i,
    {
        if v[i] == x {
            return true;
        }
        i = i + 1;
    }
    false
}

/// Appends to `found` the children of `parent` that it does not hold yet, in
/// the order of the table.
fn add_children(table: &Vec<ProcessEntry>, root: u32, parent: u32, head: Ghost<int>, found: &mut Vec<u32>)
    requires
        0 <= head@ < old(found)@.len() && old(found)@[head@] == parent || head@ == -1 && parent == root,
        old(found)@.no_duplicates(),
        discovered_in_order(table@, root, old(found)@),
    ensures
        final(found)@.len() >= old(found)@.len(),
        final(found)@.subrange(0, old(found)@.len() as int) == old(found)@,
        final(found)@.no_duplicates(),
        discovered_in_order(table@, root, final(found)@),
        final(found)@.len() <= table@.len(),
        forall|k: int|
            #![trigger table@[k]]
            0 <= k < table@.len() && table@[k].parent_pid == parent ==> final(found)@.contains(
                table@[k].pid,
            ),
        final(found)@ == scan_children(table@, parent, old(found)@),
{
    let ghost start = found@;
    proof {
        lemma_discovered_bounded(table@, root, found@);
    }
    let mut k: usize = 0;
    assert(table@.subrange(0, table@.len() as int) =~= table@);
    while k < table.len()
        invariant
            scan_children(table@.subrange(k as int, table@.len() as int), parent, found@)
                == scan_children(table@, parent, start),
            0 <= head@ < start.len() && start[head@] == parent || head@ == -1 && parent == root,
            k <= table@.len(),
            found@.len() >= start.len(),
            found@.subrange(0, start.len() as int) == start,
            found@.no_duplicates(),
            discovered_in_order(table@, root, found@),
            found@.len() <= table@.len(),
            forall|k2: int|
                #![trigger table@[k2]]
                0 <= k2 < k && table@[k2].parent_pid == parent ==> found@.contains(table@[k2].pid),
        decreases table@.len() - k,
    {
        let e = table[k];
        proof {
            let rows = table@.subrange(k as int, table@.len() as int);
            assert(rows[0] == e);
            assert(rows.drop_first() =~= table@.subrange(k + 1, table@.len() as int));
        }
        if e.parent_pid == parent && !contains_pid(found, e.pid) {
            let ghost prev = found@;
            found.push(e.pid);
            proof {
                assert(found@.subrange(0, start.len() as int) =~= prev.subrange(0, start.len() as int));
                assert forall|i: int, j: int|
                    0 <= i < found@.len() && 0 <= j < found@.len() && i != j implies found@[i] != found@[j] by {
                    if i < prev.len() && j < prev.len() {
                        assert(prev[i] == found@[i] && prev[j] == found@[j]);
                    } else if i == prev.len() {
                        assert(prev[j] == found@[j]);
                    } else {
                        assert(prev[i] == found@[i]);
                    }
                }
                assert forall|i: int| 0 <= i < found@.len() implies #[trigger] discovered_at(
                    table@,
                    root,
                    found@,
                    i,
                ) by {
                    if i < prev.len() {
                        assert(found@[i] == prev[i]);
                        assert(discovered_at(table@, root, prev, i));
                        let k3 = choose|k3: int|
                            0 <= k3 < table@.len() && table@[k3].pid == prev[i] && expanded_by(
                                root,
                                prev,
                                i,
                                table@[k3].parent_pid,
                            );
                        if table@[k3].parent_pid != root {
                            let j = choose|j: int| 0 <= j < i && prev[j] == table@[k3].parent_pid;
                            assert(found@[j] == prev[j]);
                        }
                        assert(expanded_by(root, found@, i, table@[k3].parent_pid));
                    } else {
                        assert(table@[k as int].pid == found@[i]);
                        if parent != root {
                            assert(prev.subrange(0, start.len() as int)[head@] == start[head@]);
                            assert(found@[head@] == prev[head@]);
                            assert(expanded_by(root, found@, i, table@[k as int].parent_pid));
                        }
                    }
                }
                lemma_discovered_bounded(table@, root, found@);
                assert forall|k2: int|
                    #![trigger table@[k2]]
                    0 <= k2 <= k && table@[k2].parent_pid == parent implies found@.contains(
                        table@[k2].pid,
                    ) by {
                    if k2 < k {
                        let j = choose|j: int| 0 <= j < prev.len() && prev[j] == table@[k2].pid;
                        assert(found@[j] == prev[j]);
                    } else {
                        assert(found@[prev.len() as int] == e.pid);
                    }
                }
            }
        }
        k = k + 1;
    }
}

/// The descendants of `root` in the snapshot `table`, found breadth first:
/// the children of the root in table order, then the children of each found
/// process in the order it was found. An id is listed the first time it is
/// found.
pub fn descendants(root: u32, table: &Vec<ProcessEntry>) -> (r: Vec<u32>)
    ensures
        r@ == breadth_first_descendants(table@, root),
        is_descendant_list(table@, root, r@),
{
    let mut found: Vec<u32> = Vec::new();
    add_children(table, root, root, Ghost(-1), &mut found);
    let mut head: usize = 0;
    while head < found.len()
        invariant
            expand_from(table@, found@, head as nat, (table@.len() - head) as nat)
                == breadth_first_descendants(table@, root),
            head <= found@.len(),
            found@.len() <= table@.len(),
            found@.no_duplicates(),
            discovered_in_order(table@, root, found@),
            forall|k: int|
                #![trigger table@[k]]
                0 <= k < table@.len() && table@[k].parent_pid == root ==> found@.contains(
                    table@[k].pid,
                ),
            forall|j: int, k: int|
                0 <= j < head && 0 <= k < table@.len() && #[trigger] table@[k].parent_pid
                    == #[trigger] found@[j] ==> found@.contains(table@[k].pid),
        decreases table@.len() - head,
    {
        let parent = found[head];
        let ghost prev = found@;
        add_children(table, root, parent, Ghost(head as int), &mut found);
        proof {
            assert forall|k: int|
                #![trigger table@[k]]
                0 <= k < table@.len() && table@[k].parent_pid == root implies found@.contains(
                    table@[k].pid,
                ) by {
                let j = choose|j: int| 0 <= j < prev.len() && prev[j] == table@[k].pid;
                assert(prev.subrange(0, prev.len() as int)[j] == found@[j]);
            }
            assert forall|j: int, k: int|
                0 <= j <= head && 0 <= k < table@.len() && #[trigger] table@[k].parent_pid
                    == #[trigger] found@[j] implies found@.contains(table@[k].pid) by {
                assert(found@.subrange(0, prev.len() as int)[j] == prev[j]);
                if j < head {
                    assert(table@[k].parent_pid == prev[j]);
                    let j2 = choose|j2: int| 0 <= j2 < prev.len() && prev[j2] == table@[k].pid;
                    assert(found@.subrange(0, prev.len() as int)[j2] == prev[j2]);
                }
            }
        }
        head = head + 1;
    }
    proof {
        assert forall|k: int|
            #![trigger table@[k]]
            0 <= k < table@.len() && (table@[k].parent_pid == root || found@.contains(
                table@[k].parent_pid,
            )) implies found@.contains(table@[k].pid) by {
            if table@[k].parent_pid != root {
                let j = choose|j: int| 0 <= j < found@.len() && found@[j] == table@[k].parent_pid;
                assert(table@[k].parent_pid == found@[j]);
            }
        }
    }
    found
}

/// The order in which a tree is suspended: the root first, so that it cannot
/// start new children meanwhile, then its descendants.
pub fn suspend_order(root: u32, table: &Vec<ProcessEntry>) -> (r: Vec<u32>)
    ensures
        r@ == seq![root] + breadth_first_descendants(table@, root),
        r@.len() >= 1,
        r@[0] == root,
        is_descendant_list(table@, root, r@.drop_first()),
{
    let found = descendants(root, table);
    let mut r: Vec<u32> = Vec::new();
    r.push(root);
    let mut i: usize = 0;
    while i < found.len()
        invariant
            i <= found@.len(),
            r@ == seq![root] + found@.subrange(0, i as int),
        decreases found@.len() - i,
    {
        r.push(found[i]);
        i = i + 1;
        assert(r@ =~= seq![root] + found@.subrange(0, i as int));
    }
    assert(r@.drop_first() =~= found@);
    assert(r@ =~= seq![root] + found@);
    r
}

/// The order in which a tree is resumed: the descendants first, then the
/// root, so that the root starts no new children before they run.
pub fn resume_order(root: u32, table: &Vec<ProcessEntry>) -> (r: Vec<u32>)
    ensures
        r@ == breadth_first_descendants(table@, root) + seq![root],
        r@.len() >= 1,
        r@.last() == root,
        is_descendant_list(table@, root, r@.drop_last()),
{
    let mut r = descendants(root, table);
    let ghost found = r@;
    r.push(root);
    assert(r@.drop_last() =~= found);
    assert(r@ =~= found + seq![root]);
    r
}

/// Every process that a cancel terminates: the root and all its descendants.
pub fn termination_targets(root: u32, table: &Vec<ProcessEntry>) -> (r: Vec<u32>)
    ensures
        r@ == seq![root] + breadth_first_descendants(table@, root),
        r@.len() >= 1,
        r@[0] == root,
        is_descendant_list(table@, root, r@.drop_first()),
{
    suspend_order(root, table)
}

proof fn lemma_listed_in_other(table: Seq<ProcessEntry>, root: u32, a: Seq<u32>, b: Seq<u32>, i: int)
    requires
        0 <= i < a.len(),
        discovered_in_order(table, root, a),
        closed_under_children(table, root, b),
    ensures
        b.contains(a[i]),
    decreases i,
{
    assert(discovered_at(table, root, a, i));
    let k = choose|k: int|
        0 <= k < table.len() && table[k].pid == a[i] && expanded_by(root, a, i, table[k].parent_pid);
    if table[k].parent_pid != root {
        let j = choose|j: int| 0 <= j < i && a[j] == table[k].parent_pid;
        lemma_listed_in_other(table, root, a, b, j);
    }
}

/// The descendant list of a root in a snapshot is unique up to order: any
/// two lists that meet `is_descendant_list` hold the same processes. So the
/// suspend, resume and termination orders of one snapshot all reach the
/// same tree.
pub proof fn descendant_lists_agree(table: Seq<ProcessEntry>, root: u32, a: Seq<u32>, b: Seq<u32>)
    requires
        is_descendant_list(table, root, a),
        is_descendant_list(table, root, b),
    ensures
        a.to_set() == b.to_set(),
        a.len() == b.len(),
{
    assert forall|x: u32| a.to_set().contains(x) implies b.to_set().contains(x) by {
        let i = choose|i: int| 0 <= i < a.len() && a[i] == x;
        lemma_listed_in_other(table, root, a, b, i);
    }
    assert forall|x: u32| b.to_set().contains(x) implies a.to_set().contains(x) by {
        let i = choose|i: int| 0 <= i < b.len() && b[i] == x;
        lemma_listed_in_other(table, root, b, a, i);
    }
    assert(a.to_set() =~= b.to_set());
    a.unique_seq_to_set();
    b.unique_seq_to_set();
}

} // verus!
