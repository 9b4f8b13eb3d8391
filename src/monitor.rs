//! The snapshot store: the latest process table, how it is refreshed from a
//! listing, searched by fuzzy match, and thinned when a process is killed.
use vstd::prelude::*;
use crate::find::{first_index, lemma_first_index, lemma_first_index_at, text_is};
use crate::ieee::{at_least_one, at_least_one_spec, clamp_unit, clamp_unit_spec};
use crate::listing::{listing_records, parse_listing, views, ListingFormat};
use crate::process::{Process, ProcessView};
use crate::ranking::{lemma_ranking_sorted, rank, ranking, similarities, texts};
use crate::text::{chars_of, same_text, decimal, decimal_of, strip_exe, strip_exe_of, string_of};

verus! {

/// Why the process listing could not be had.
#[derive(Clone, Copy, Debug, PartialEq, Eq, Structural)]
pub enum ListingError {
    /// The listing command could not be started.
    SpawnFailure,
    /// It ran, and exited with a failure status.
    ExecutionFailure,
    /// What it printed is not text.
    DecodeFailure,
}

/// The outcome of asking the system to kill a process.
#[derive(Clone, Copy, Debug, PartialEq, Eq, Structural)]
pub enum KillStatus {
    Killed,
    Failed,
}

pub open spec fn pid_is(pid: u64) -> spec_fn(ProcessView) -> bool {
    |p: ProcessView| p.pid == pid
}

pub open spec fn command_is(name: Seq<char>) -> spec_fn(ProcessView) -> bool {
    |p: ProcessView| p.command == name
}

/// The text a record is matched by: its PID in decimal, or its command
/// without an executable suffix.
pub open spec fn match_key(p: ProcessView, by_pid: bool) -> Seq<char> {
    if by_pid {
        decimal(p.pid as nat)
    } else {
        strip_exe(p.command)
    }
}

pub open spec fn match_keys(ps: Seq<ProcessView>, by_pid: bool) -> Seq<Seq<char>> {
    ps.map_values(|p: ProcessView| match_key(p, by_pid))
}

/// The record that the `i`-th key stands for: the first record of `ps` with
/// the same key.
pub open spec fn record_for_key(ps: Seq<ProcessView>, by_pid: bool, i: int) -> ProcessView {
    let keys = match_keys(ps, by_pid);
    ps[first_index(keys, text_is(keys[i]))->0]
}

/// What a fuzzy search of `ps` gives: nothing where no record ranks, else
/// the record for each ranked key, in ranking order.
pub open spec fn fuzzy_result(
    ps: Seq<ProcessView>,
    query: Seq<char>,
    by_pid: bool,
    threshold: u32,
    limit: nat,
) -> Option<Seq<ProcessView>> {
    let order = ranking(similarities(query, match_keys(ps, by_pid)), threshold, limit);
    if order.len() == 0 {
        None
    } else {
        Some(order.map_values(|i: usize| record_for_key(ps, by_pid, i as int)))
    }
}

/// The snapshot after a kill of `pid` that ended in `status`: on success the
/// first record with that PID is gone; otherwise nothing changes.
pub open spec fn after_kill(ps: Seq<ProcessView>, pid: u64, status: KillStatus) -> Seq<ProcessView> {
    match status {
        KillStatus::Failed => ps,
        KillStatus::Killed => match first_index(ps, pid_is(pid)) {
            Some(i) => ps.remove(i),
            None => ps,
        },
    }
}

/// A PID lookup in a snapshot resolves to one record, the first with that
/// PID, even where several records share it; it finds none only where no
/// record has it.
pub proof fn lemma_pid_lookup_is_first(ps: Seq<ProcessView>, pid: u64)
    ensures
        match first_index(ps, pid_is(pid)) {
            Some(i) => 0 <= i < ps.len() && ps[i].pid == pid && forall|q: int|
                0 <= q < i ==> (#[trigger] ps[q]).pid != pid,
            None => forall|q: int| 0 <= q < ps.len() ==> (#[trigger] ps[q]).pid != pid,
        },
{
    lemma_first_index(ps, pid_is(pid));
    match first_index(ps, pid_is(pid)) {
        Some(i) => {
            assert forall|q: int| 0 <= q < i implies (#[trigger] ps[q]).pid != pid by {
                assert(!pid_is(pid)(ps[q]));
            }
        },
        None => {
            assert forall|q: int| 0 <= q < ps.len() implies (#[trigger] ps[q]).pid != pid by {
                assert(!pid_is(pid)(ps[q]));
            }
        },
    }
}

/// A kill of a PID that the snapshot no longer holds changes nothing: right
/// after a first kill, whatever its outcome, a second kill of a PID that the
/// snapshot then lacks leaves the snapshot as the first kill left it.
pub proof fn lemma_kill_idempotent(ps: Seq<ProcessView>, pid: u64, first: KillStatus, second: KillStatus)
    requires
        forall|q: int|
            0 <= q < after_kill(ps, pid, first).len() ==> (#[trigger] after_kill(ps, pid, first)[q]).pid
                != pid,
    ensures
        after_kill(after_kill(ps, pid, first), pid, second) == after_kill(ps, pid, first),
{
    let once = after_kill(ps, pid, first);
    lemma_first_index(once, pid_is(pid));
    if first_index(once, pid_is(pid)) is Some {
        let j = first_index(once, pid_is(pid))->0;
        assert(once[j].pid != pid);
    }
}

/// The mathematical value of a [`Monitor`].
pub struct MonitorView {
    pub interval: u32,
    pub threshold: u32,
    pub num_matches: nat,
    pub format: ListingFormat,
    pub snapshot: Seq<ProcessView>,
}

/// Holds the latest snapshot of the process table with the settings it is
/// searched by: the poll interval (seconds, at least 1) and the similarity
/// threshold (in `[0, 1]`), both by their IEEE-754 single-precision bit
/// patterns, the most matches a search returns (at least 1), and the format
/// of the system's listing.
pub struct Monitor {
    interval: u32,
    threshold: u32,
    num_matches: usize,
    format: ListingFormat,
    current_procs: Vec<Process>,
}

impl View for Monitor {
    type V = MonitorView;

    closed spec fn view(&self) -> MonitorView {
        MonitorView {
            interval: self.interval,
            threshold: self.threshold,
            num_matches: self.num_matches as nat,
            format: self.format,
            snapshot: views(self.current_procs@),
        }
    }
}

fn copy_all(ps: &Vec<Process>) -> (r: Vec<Process>)
    ensures
        views(r@) == views(ps@),
{
    let mut out: Vec<Process> = Vec::new();
    let mut i: usize = 0;
    while i < ps.len()
        invariant
            i <= ps.len(),
            views(out@) == views(ps@).take(i as int),
        decreases ps.len() - i,
    {
        let ghost before = out@;
        out.push(ps[i].clone());
        assert(views(out@) =~= views(before).push(ps@[i as int]@));
        i = i + 1;
        assert(views(out@) =~= views(ps@).take(i as int));
    }
    assert(views(ps@).take(i as int) =~= views(ps@));
    out
}

impl Monitor {
    /// A monitor with an empty snapshot; the interval is raised to at least
    /// 1, the threshold clamped into `[0, 1]` and the number of matches
    /// raised to at least 1.
    pub fn new(interval: u32, threshold: u32, num_matches: usize, format: ListingFormat) -> (r: Self)
        ensures
            r@.interval == at_least_one_spec(interval),
            r@.threshold == clamp_unit_spec(threshold),
            r@.num_matches == if num_matches == 0 { 1 } else { num_matches as nat },
            r@.format == format,
            r@.snapshot == Seq::<ProcessView>::empty(),
    {
        let r = Monitor {
            interval: at_least_one(interval),
            threshold: clamp_unit(threshold),
            num_matches: if num_matches == 0 { 1 } else { num_matches },
            format,
            current_procs: Vec::new(),
        };
        assert(views(r.current_procs@) =~= Seq::<ProcessView>::empty());
        r
    }

    /// The poll interval, by its bit pattern.
    pub fn get_interval(&self) -> (r: u32)
        ensures
            r == self@.interval,
    {
        self.interval
    }

    /// The similarity threshold, by its bit pattern.
    pub fn get_threshold(&self) -> (r: u32)
        ensures
            r == self@.threshold,
    {
        self.threshold
    }

    pub fn get_num_matches(&self) -> (r: usize)
        ensures
            r == self@.num_matches,
    {
        self.num_matches
    }

    pub fn get_format(&self) -> (r: ListingFormat)
        ensures
            r == self@.format,
    {
        self.format
    }

    /// The key of each record of the snapshot: its PID in decimal where
    /// `by_pid` holds, else its command without an executable suffix.
    pub fn match_keys(&self, by_pid: bool) -> (r: Vec<String>)
        ensures
            texts(r@) == match_keys(self@.snapshot, by_pid),
    {
        let ghost keys = match_keys(self@.snapshot, by_pid);
        let mut ks: Vec<String> = Vec::new();
        let mut i: usize = 0;
        while i < self.current_procs.len()
            invariant
                i <= self.current_procs.len(),
                keys == match_keys(views(self.current_procs@), by_pid),
                texts(ks@) == keys.take(i as int),
            decreases self.current_procs.len() - i,
        {
            let k = key_of(&self.current_procs[i], by_pid);
            let ghost before = ks@;
            ks.push(k);
            assert(texts(ks@) =~= texts(before).push(k@));
            i = i + 1;
            assert(texts(ks@) =~= keys.take(i as int));
        }
        assert(keys.take(i as int) =~= keys);
        ks
    }

    /// The record for each key position in `order`: the first record with
    /// the same key.
    pub fn records_for(&self, by_pid: bool, order: &Vec<usize>) -> (r: Vec<Process>)
        requires
            forall|k: int| 0 <= k < order.len() ==> #[trigger] order[k] < self@.snapshot.len(),
        ensures
            views(r@) == order@.map_values(|i: usize| record_for_key(self@.snapshot, by_pid, i as int)),
    {
        let ghost ps = views(self.current_procs@);
        let ghost keys = match_keys(ps, by_pid);
        let ks = self.match_keys(by_pid);
        let mut out: Vec<Process> = Vec::new();
        let mut k: usize = 0;
        while k < order.len()
            invariant
                k <= order.len(),
                ps == views(self.current_procs@),
                keys == match_keys(ps, by_pid),
                texts(ks@) == keys,
                forall|q: int| 0 <= q < order.len() ==> #[trigger] order[q] < ps.len(),
                views(out@) == order@.take(k as int).map_values(
                    |i: usize| record_for_key(ps, by_pid, i as int),
                ),
            decreases order.len() - k,
        {
            let c = order[k];
            assert(texts(ks@).len() == ks@.len());
            assert(keys.len() == ps.len());
            let mut j: usize = 0;
            while !(ks[j] == ks[c])
                invariant
                    j <= c < ks.len(),
                    texts(ks@) == keys,
                    forall|q: int| 0 <= q < j ==> !text_is(keys[c as int])(#[trigger] keys[q]),
                decreases c - j,
            {
                assert(keys[j as int] == ks@[j as int]@);
                if j == c {
                    assert(false);
                }
                j = j + 1;
            }
            proof {
                assert(keys[j as int] == ks@[j as int]@);
                lemma_first_index_at(keys, text_is(keys[c as int]), j as int);
            }
            let ghost before = out@;
            out.push(self.current_procs[j].clone());
            assert(views(out@) =~= views(before).push(ps[j as int]));
            k = k + 1;
            assert(order@.take(k as int) =~= order@.take(k - 1).push(c));
            assert(views(out@) =~= order@.take(k as int).map_values(
                |i: usize| record_for_key(ps, by_pid, i as int),
            ));
        }
        assert(order@.take(k as int) =~= order@);
        out
    }
}


fn first_with_pid(ps: &Vec<Process>, pid: u64) -> (r: Option<usize>)
    ensures
        match r {
            Some(i) => i < ps.len() && first_index(views(ps@), pid_is(pid)) == Some(i as int),
            None => first_index(views(ps@), pid_is(pid)) is None,
        },
{
    let ghost pv = views(ps@);
    let mut i: usize = 0;
    while i < ps.len()
        invariant
            i <= ps.len(),
            pv == views(ps@),
            forall|q: int| 0 <= q < i ==> !pid_is(pid)(#[trigger] pv[q]),
        decreases ps.len() - i,
    {
        if ps[i].get_pid() == pid {
            proof {
                lemma_first_index_at(pv, pid_is(pid), i as int);
            }
            return Some(i);
        }
        i = i + 1;
    }
    proof {
        lemma_first_index(pv, pid_is(pid));
        if first_index(pv, pid_is(pid)) is Some {
            let j = first_index(pv, pid_is(pid))->0;
            assert(pid_is(pid)(pv[j]));
        }
    }
    None
}

fn key_of(p: &Process, by_pid: bool) -> (r: String)
    ensures
        r@ == match_key(p@, by_pid),
{
    if by_pid {
        string_of(&decimal_of(p.get_pid()))
    } else {
        string_of(&strip_exe_of(&chars_of(p.get_command())))
    }
}

/// The operations of a process-table store.
pub trait ProcessMonitor {
    /// The records of the latest snapshot, in listing order.
    spec fn snapshot(&self) -> Seq<ProcessView>;

    /// The format in which the system's listing is read.
    spec fn listing_format(&self) -> ListingFormat;

    /// The score a match must reach, by its bit pattern.
    spec fn match_threshold(&self) -> u32;

    /// The most records a search returns.
    spec fn match_limit(&self) -> nat;

    /// Replaces the snapshot with the records of the listing that the system
    /// printed; where the listing could not be had the snapshot stays.
    fn get_procs_from_system(&mut self, listing: Result<String, ListingError>)
        ensures
            final(self).listing_format() == old(self).listing_format(),
            final(self).match_threshold() == old(self).match_threshold(),
            final(self).match_limit() == old(self).match_limit(),
            final(self).snapshot() == match listing {
                Ok(text) => listing_records(old(self).listing_format(), text@),
                Err(_) => old(self).snapshot(),
            },
    ;

    /// Records the outcome of killing `proc`: once the kill succeeded, the
    /// first record with its PID leaves the snapshot.
    fn kill_proc(&mut self, proc: &Process, status: KillStatus)
        ensures
            final(self).listing_format() == old(self).listing_format(),
            final(self).match_threshold() == old(self).match_threshold(),
            final(self).match_limit() == old(self).match_limit(),
            final(self).snapshot() == after_kill(old(self).snapshot(), proc@.pid, status),
    ;

    /// The records whose command is exactly `name`, in snapshot order: the
    /// processes that killing every process of that name targets.
    fn procs_named(&self, name: &str) -> (r: Vec<Process>)
        ensures
            views(r@) == self.snapshot().filter(command_is(name@)),
    ;

    /// The records that best match `search`, by PID where `search_pid` holds
    /// and by command otherwise; `None` where none reaches the threshold.
    fn get_procs_by_name_fuzzy(&self, search: &str, search_pid: bool) -> (r: Option<Vec<Process>>)
        ensures
            match r {
                Some(v) => fuzzy_result(
                    self.snapshot(),
                    search@,
                    search_pid,
                    self.match_threshold(),
                    self.match_limit(),
                ) == Some(views(v@)),
                None => fuzzy_result(
                    self.snapshot(),
                    search@,
                    search_pid,
                    self.match_threshold(),
                    self.match_limit(),
                ) is None,
            },
    ;

    /// A copy of the whole snapshot; `None` where it is empty.
    fn get_all_procs(&self) -> (r: Option<Vec<Process>>)
        ensures
            match r {
                Some(v) => self.snapshot().len() > 0 && views(v@) == self.snapshot(),
                None => self.snapshot().len() == 0,
            },
    ;
}

impl ProcessMonitor for Monitor {
    open spec fn snapshot(&self) -> Seq<ProcessView> {
        self@.snapshot
    }

    open spec fn listing_format(&self) -> ListingFormat {
        self@.format
    }

    open spec fn match_threshold(&self) -> u32 {
        self@.threshold
    }

    open spec fn match_limit(&self) -> nat {
        self@.num_matches
    }

    fn get_procs_from_system(&mut self, listing: Result<String, ListingError>) {
        if let Ok(text) = listing {
            self.current_procs = parse_listing(self.format, text.as_str());
        }
    }

    fn kill_proc(&mut self, proc: &Process, status: KillStatus) {
        if status == KillStatus::Failed {
            return;
        }
        let ghost ps = views(self.current_procs@);
        assert(ps == old(self).snapshot());
        match first_with_pid(&self.current_procs, proc.get_pid()) {
            Some(i) => {
                self.current_procs.remove(i);
                assert(views(self.current_procs@) =~= ps.remove(i as int));
                assert(after_kill(ps, proc@.pid, status) == ps.remove(i as int));
            },
            None => {
                assert(after_kill(ps, proc@.pid, status) == ps);
            },
        }
    }

    fn procs_named(&self, name: &str) -> (r: Vec<Process>) {
        let ghost ps = views(self.current_procs@);
        let mut out: Vec<Process> = Vec::new();
        let mut i: usize = 0;
        while i < self.current_procs.len()
            invariant
                i <= self.current_procs.len(),
                ps == views(self.current_procs@),
                views(out@) == ps.take(i as int).filter(command_is(name@)),
            decreases self.current_procs.len() - i,
        {
            proof {
                reveal(Seq::filter);
                assert(ps.take(i + 1).drop_last() =~= ps.take(i as int));
            }
            let p = &self.current_procs[i];
            let ghost before = out@;
            if same_text(p.get_command(), name) {
                out.push(p.clone());
                assert(views(out@) =~= views(before).push(p@));
            }
            i = i + 1;
        }
        assert(ps.take(i as int) =~= ps);
        out
    }

    fn get_procs_by_name_fuzzy(&self, search: &str, search_pid: bool) -> (r: Option<Vec<Process>>) {
        let keys = self.match_keys(search_pid);
        let ranked = rank(search, &keys, self.threshold, self.num_matches);
        if ranked.len() == 0 {
            return None;
        }
        let mut order: Vec<usize> = Vec::new();
        let mut k: usize = 0;
        while k < ranked.len()
            invariant
                k <= ranked.len(),
                order@ == ranked@.map_values(|m: (usize, u32)| m.0).take(k as int),
            decreases ranked.len() - k,
        {
            order.push(ranked[k].0);
            k = k + 1;
            assert(order@ =~= ranked@.map_values(|m: (usize, u32)| m.0).take(k as int));
        }
        assert(order@ =~= ranked@.map_values(|m: (usize, u32)| m.0));
        proof {
            lemma_ranking_sorted(
                similarities(search@, texts(keys@)),
                self.threshold,
                self.num_matches as nat,
                order@,
            );
        }
        Some(self.records_for(search_pid, &order))
    }

    fn get_all_procs(&self) -> (r: Option<Vec<Process>>) {
        if self.current_procs.len() == 0 {
            None
        } else {
            Some(copy_all(&self.current_procs))
        }
    }
}

} // verus!
