//! The order in which the whole snapshot is shown: by command, in the
//! lexicographic order of their characters.
use vstd::prelude::*;
use crate::listing::views;
use crate::process::{Process, ProcessView};
use crate::find::{first_index, lemma_first_index, lemma_first_index_at};
use crate::text::chars_of;

verus! {

/// `a` comes strictly before `b` in lexicographic order of characters (the
/// order of `str`'s `Ord`, which compares UTF-8 bytes).
pub open spec fn text_lt(a: Seq<char>, b: Seq<char>) -> bool
    decreases a.len(),
{
    if b.len() == 0 {
        false
    } else if a.len() == 0 {
        true
    } else if a[0] != b[0] {
        a[0] < b[0]
    } else {
        text_lt(a.drop_first(), b.drop_first())
    }
}

/// The records of `ps` are in order of command.
pub open spec fn sorted_by_command(ps: Seq<ProcessView>) -> bool {
    forall|j: int, k: int|
        0 <= j < k < ps.len() ==> !text_lt(#[trigger] ps[k].command, #[trigger] ps[j].command)
}

proof fn lemma_text_lt_transitive(a: Seq<char>, b: Seq<char>, c: Seq<char>)
    requires
        text_lt(a, b),
        text_lt(b, c),
    ensures
        text_lt(a, c),
    decreases a.len(),
{
    if a.len() > 0 && b.len() > 0 && c.len() > 0 && a[0] == b[0] && b[0] == c[0] {
        lemma_text_lt_transitive(a.drop_first(), b.drop_first(), c.drop_first());
    }
}

proof fn lemma_text_lt_irreflexive(a: Seq<char>)
    ensures
        !text_lt(a, a),
    decreases a.len(),
{
    if a.len() > 0 {
        lemma_text_lt_irreflexive(a.drop_first());
    }
}

proof fn lemma_text_lt_from(a: Seq<char>, b: Seq<char>, i: int)
    requires
        0 <= i <= a.len(),
        i <= b.len(),
        a.take(i) == b.take(i),
    ensures
        text_lt(a, b) == text_lt(a.skip(i), b.skip(i)),
    decreases i,
{
    if i > 0 {
        assert(a[0] == a.take(i)[0] && b[0] == b.take(i)[0]);
        assert(a.drop_first().take(i - 1) =~= a.take(i).drop_first());
        assert(b.drop_first().take(i - 1) =~= b.take(i).drop_first());
        lemma_text_lt_from(a.drop_first(), b.drop_first(), i - 1);
        assert(a.drop_first().skip(i - 1) =~= a.skip(i));
        assert(b.drop_first().skip(i - 1) =~= b.skip(i));
    } else {
        assert(a.skip(0) =~= a);
        assert(b.skip(0) =~= b);
    }
}

/// Whether `a` comes strictly before `b`.
pub fn text_less(a: &Vec<char>, b: &Vec<char>) -> (r: bool)
    ensures
        r == text_lt(a@, b@),
{
    let mut i: usize = 0;
    while i < a.len() && i < b.len() && a[i] == b[i]
        invariant
            i <= a.len(),
            i <= b.len(),
            a@.take(i as int) == b@.take(i as int),
        decreases a.len() - i,
    {
        assert(a@.take(i + 1) =~= a@.take(i as int).push(a@[i as int]));
        assert(b@.take(i + 1) =~= b@.take(i as int).push(b@[i as int]));
        i = i + 1;
    }
    proof {
        lemma_text_lt_from(a@, b@, i as int);
    }
    if i == b.len() {
        false
    } else if i == a.len() {
        true
    } else {
        a[i] < b[i]
    }
}

/// Holds of a command that comes strictly after `c`.
pub open spec fn comes_after(c: Seq<char>) -> spec_fn(Seq<char>) -> bool {
    |d: Seq<char>| text_lt(c, d)
}

/// Where `x` goes in the ordered `s`: before the first record whose command
/// comes strictly after its own, so after every record of the same command.
pub open spec fn slot(s: Seq<ProcessView>, x: ProcessView) -> int {
    match first_index(s.map_values(|p: ProcessView| p.command), comes_after(x.command)) {
        Some(i) => i,
        None => s.len() as int,
    }
}

/// `s` ordered by command, each record inserted in turn after those of the
/// same command: a stable sort.
pub open spec fn by_command(s: Seq<ProcessView>) -> Seq<ProcessView>
    decreases s.len(),
{
    if s.len() == 0 {
        s
    } else {
        let r = by_command(s.drop_last());
        r.insert(slot(r, s.last()), s.last())
    }
}

/// Orders `procs` by command, records of the same command in the order they
/// had.
pub fn sort_by_command(procs: &mut Vec<Process>)
    ensures
        views(final(procs)@) == by_command(views(old(procs)@)),
        views(final(procs)@).to_multiset() == views(old(procs)@).to_multiset(),
        sorted_by_command(views(final(procs)@)),
{
    let ghost pv = views(procs@);
    let n = procs.len();
    let mut keys: Vec<Vec<char>> = Vec::new();
    let mut i: usize = 0;
    while i < n
        invariant
            n == procs.len(),
            pv == views(procs@),
            i <= n,
            keys.len() == i,
            forall|k: int| 0 <= k < i ==> (#[trigger] keys[k])@ == pv[k].command,
        decreases n - i,
    {
        keys.push(chars_of(procs[i].get_command()));
        i = i + 1;
    }
    let mut out: Vec<Process> = Vec::new();
    let mut at: Vec<usize> = Vec::new();
    i = 0;
    assert(views(out@) =~= pv.take(0));
    while i < n
        invariant
            n == procs.len(),
            pv == views(procs@),
            i <= n,
            keys.len() == n,
            forall|k: int| 0 <= k < n ==> (#[trigger] keys[k])@ == pv[k].command,
            out.len() == at.len(),
            forall|k: int| 0 <= k < out.len() ==> #[trigger] at[k] < n && keys[at[k] as int]@ == out[k]@.command,
            views(out@).to_multiset() == pv.take(i as int).to_multiset(),
            views(out@) == by_command(pv.take(i as int)),
            sorted_by_command(views(out@)),
        decreases n - i,
    {
        let mut p: usize = 0;
        while p < out.len() && !text_less(&keys[i], &keys[at[p]])
            invariant
                i < n,
                keys.len() == n,
                p <= out.len(),
                out.len() == at.len(),
                forall|k: int| 0 <= k < out.len() ==> #[trigger] at[k] < n,
                forall|q: int| 0 <= q < p ==> !text_lt(keys[i as int]@, keys[#[trigger] at[q] as int]@),
            decreases out.len() - p,
        {
            p = p + 1;
        }
        let ghost before = views(out@);
        let ghost x = pv[i as int];
        proof {
            let cmds = before.map_values(|q: ProcessView| q.command);
            assert forall|q: int| 0 <= q < p implies !comes_after(x.command)(#[trigger] cmds[q]) by {
                assert(keys[at[q] as int]@ == before[q].command);
            }
            if p < out.len() {
                assert(keys[at[p as int] as int]@ == before[p as int].command);
                lemma_first_index_at(cmds, comes_after(x.command), p as int);
            } else {
                lemma_first_index(cmds, comes_after(x.command));
            }
            assert(slot(before, x) == p);
            assert(pv.take(i + 1).drop_last() =~= pv.take(i as int));
            assert(by_command(pv.take(i + 1)) == before.insert(p as int, x));
            assert forall|q: int| 0 <= q < p implies !text_lt(x.command, #[trigger] before[q].command) by {
                assert(keys[at[q] as int]@ == before[q].command);
            }
            if p < out.len() {
                assert(keys[at[p as int] as int]@ == before[p as int].command);
                assert(text_lt(x.command, before[p as int].command));
            }
        }
        out.insert(p, procs[i].clone());
        let ghost old_at = at@;
        at.insert(p, i);
        let ghost after = views(out@);
        assert(after =~= before.insert(p as int, x));
        assert forall|k: int| 0 <= k < out.len() implies #[trigger] at[k] < n && keys[at[k] as int]@ == out[k]@.command by {
            assert(at@ == old_at.insert(p as int, i));
            assert(after[k] == out[k]@);
            if k < p {
                assert(at[k] == old_at[k]);
                assert(after[k] == before[k]);
            } else if k > p {
                assert(at[k] == old_at[k - 1]);
                assert(after[k] == before[k - 1]);
            }
        }
        assert forall|j: int, k: int| 0 <= j < k < after.len() implies !text_lt(
            #[trigger] after[k].command,
            #[trigger] after[j].command,
        ) by {
            if j < p && k < p {
                assert(after[j] == before[j] && after[k] == before[k]);
            } else if j < p && k == p {
                assert(after[j] == before[j]);
            } else if j < p {
                assert(after[j] == before[j] && after[k] == before[k - 1]);
            } else if j == p {
                assert(after[k] == before[k - 1]);
                if text_lt(before[k - 1].command, x.command) {
                    lemma_text_lt_irreflexive(before[p as int].command);
                    lemma_text_lt_transitive(before[k - 1].command, x.command, before[p as int].command);
                    if k - 1 > p {
                        lemma_text_lt_transitive(
                            before[k - 1].command,
                            x.command,
                            before[p as int].command,
                        );
                    }
                }
            } else {
                assert(after[j] == before[j - 1] && after[k] == before[k - 1]);
            }
        }
        proof {
            assert(pv.take(i + 1) =~= pv.take(i as int).push(x));
            vstd::seq_lib::to_multiset_build(pv.take(i as int), x);
            vstd::seq_lib::to_multiset_insert(before, p as int, x);
        }
        i = i + 1;
    }
    assert(pv.take(n as int) =~= pv);
    *procs = out;
}

} // verus!
