use vstd::prelude::*;
use crate::process::{Process, ProcessView, UNSET_PID};
use crate::text::{
    chars_of, field_or_empty, fields, lines, parse_u64, parse_u64_spec, split_fields, split_lines,
    string_of,
};

verus! {

/// The shape of the process table that the host's listing command prints.
#[derive(Clone, Copy, Debug, PartialEq, Eq, Structural)]
pub enum ListingFormat {
    /// A header line, then one process per line: command, PID, memory
    /// percentage and CPU percentage, separated by whitespace.
    Posix,
    /// A table without header: command, PID, session name, session number,
    /// memory size and its unit, separated by whitespace.
    Windows,
}

/// The PID column read as a number, or the unset PID where it does not read.
pub open spec fn pid_or_unset(f: Seq<Seq<char>>) -> u64 {
    match parse_u64_spec(field_or_empty(f, 1)) {
        Some(v) => v,
        None => UNSET_PID,
    }
}

/// The record of one line of a POSIX listing.
pub open spec fn posix_record(line: Seq<char>) -> ProcessView {
    let f = fields(line);
    ProcessView {
        command: field_or_empty(f, 0),
        pid: pid_or_unset(f),
        mem: field_or_empty(f, 2),
        cpu: field_or_empty(f, 3),
    }
}

/// The record of one line of a Windows listing, if its PID reads (and is
/// not the unset PID); the memory figure is the size, a space, the unit and
/// `iB`.
pub open spec fn windows_record(line: Seq<char>) -> Option<ProcessView> {
    let f = fields(line);
    let pid = pid_or_unset(f);
    if pid == UNSET_PID {
        None
    } else {
        Some(
            ProcessView {
                command: field_or_empty(f, 0),
                pid,
                mem: field_or_empty(f, 4) + seq![' '] + field_or_empty(f, 5) + seq!['i', 'B'],
                cpu: Seq::empty(),
            },
        )
    }
}

/// The records of the lines of a Windows listing whose PID reads.
pub open spec fn windows_entries(ls: Seq<Seq<char>>) -> Seq<ProcessView> {
    ls.filter_map(|l: Seq<char>| windows_record(l))
}

/// The records that a listing in `format` describes, in the order of its
/// lines: every line after the header for `Posix`, every line whose PID
/// reads for `Windows`.
pub open spec fn listing_records(format: ListingFormat, text: Seq<char>) -> Seq<ProcessView> {
    let ls = lines(text);
    match format {
        ListingFormat::Posix => if ls.len() == 0 {
            Seq::empty()
        } else {
            ls.drop_first().map_values(|l: Seq<char>| posix_record(l))
        },
        ListingFormat::Windows => windows_entries(ls),
    }
}

proof fn lemma_windows_lines(ls: Seq<Seq<char>>)
    requires
        forall|i: int, j: int|
            0 <= i < j < ls.len() && windows_record(ls[i]) is Some && windows_record(ls[j]) is Some
                ==> (#[trigger] windows_record(ls[i]))->0.pid != (#[trigger] windows_record(ls[j]))->0.pid,
    ensures
        forall|k: int|
            #![trigger windows_entries(ls)[k]]
            0 <= k < windows_entries(ls).len() ==> exists|q: int|
                0 <= q < ls.len() && windows_record(#[trigger] ls[q]) == Some(windows_entries(ls)[k]),
        forall|k: int|
            0 <= k < windows_entries(ls).len() ==> (#[trigger] windows_entries(ls)[k]).pid != UNSET_PID,
        forall|j: int, k: int|
            0 <= j < k < windows_entries(ls).len() ==> (#[trigger] windows_entries(ls)[j]).pid != (#[trigger] windows_entries(ls)[k]).pid,
    decreases ls.len(),
{
    if ls.len() > 0 {
        let init = ls.drop_last();
        assert forall|i: int, j: int|
            0 <= i < j < init.len() && windows_record(init[i]) is Some && windows_record(init[j]) is Some
                implies (#[trigger] windows_record(init[i]))->0.pid != (#[trigger] windows_record(init[j]))->0.pid by {
            assert(init[i] == ls[i] && init[j] == ls[j]);
        }
        lemma_windows_lines(init);
        let prev = windows_entries(init);
        assert forall|k: int| #![trigger prev[k]] 0 <= k < prev.len() implies exists|q: int|
            0 <= q < ls.len() && windows_record(#[trigger] ls[q]) == Some(prev[k]) by {
            let q = choose|q: int| 0 <= q < init.len() && windows_record(#[trigger] init[q]) == Some(prev[k]);
            assert(ls[q] == init[q]);
        }
        match windows_record(ls.last()) {
            Some(x) => {
                let all = windows_entries(ls);
                assert(all == prev + seq![x]);
                assert forall|k: int| 0 <= k < prev.len() implies (#[trigger] prev[k]).pid != x.pid by {
                    let q = choose|q: int| 0 <= q < init.len() && windows_record(#[trigger] init[q]) == Some(prev[k]);
                    assert(ls[q] == init[q]);
                    assert(windows_record(ls[q]) is Some && windows_record(ls[ls.len() - 1]) is Some);
                }
                assert forall|k: int| #![trigger all[k]] 0 <= k < all.len() implies exists|q: int|
                    0 <= q < ls.len() && windows_record(#[trigger] ls[q]) == Some(all[k]) by {
                    if k == prev.len() {
                        assert(windows_record(ls[ls.len() - 1]) == Some(all[k]));
                    } else {
                        assert(all[k] == prev[k]);
                    }
                }
                assert forall|j: int, k: int| 0 <= j < k < all.len() implies (#[trigger] all[j]).pid != (#[trigger] all[k]).pid by {
                    assert(all[j] == prev[j]);
                    if k < prev.len() {
                        assert(all[k] == prev[k]);
                    }
                }
            },
            None => {},
        }
    }
}

/// Every record that a Windows listing yields carries a PID that was read,
/// and where the lines whose PID reads carry pairwise different PIDs (as the
/// system's table does), no two records share a PID.
pub proof fn lemma_windows_pids_unique(text: Seq<char>)
    requires
        forall|i: int, j: int|
            0 <= i < j < lines(text).len() && windows_record(lines(text)[i]) is Some && windows_record(
                lines(text)[j],
            ) is Some ==> (#[trigger] windows_record(lines(text)[i]))->0.pid != (#[trigger] windows_record(
                lines(text)[j],
            ))->0.pid,
    ensures
        forall|k: int|
            0 <= k < listing_records(ListingFormat::Windows, text).len() ==> (
            #[trigger] listing_records(ListingFormat::Windows, text)[k]).pid != UNSET_PID,
        forall|j: int, k: int|
            0 <= j < k < listing_records(ListingFormat::Windows, text).len() ==> (
            #[trigger] listing_records(ListingFormat::Windows, text)[j]).pid != (
            #[trigger] listing_records(ListingFormat::Windows, text)[k]).pid,
{
    lemma_windows_lines(lines(text));
}

/// The views of a sequence of records.
pub open spec fn views(ps: Seq<Process>) -> Seq<ProcessView> {
    ps.map_values(|p: Process| p@)
}

fn field_text(f: &Vec<Vec<char>>, i: usize) -> (r: Vec<char>)
    ensures
        r@ == field_or_empty(f@.map_values(|x: Vec<char>| x@), i as int),
{
    if i < f.len() {
        f[i].clone()
    } else {
        Vec::new()
    }
}

fn read_pid(f: &Vec<Vec<char>>) -> (r: u64)
    ensures
        r == pid_or_unset(f@.map_values(|x: Vec<char>| x@)),
{
    match parse_u64(&field_text(f, 1)) {
        Some(v) => v,
        None => UNSET_PID,
    }
}

fn posix_line(line: &Vec<char>) -> (r: Process)
    ensures
        r@ == posix_record(line@),
{
    let f = split_fields(line);
    Process::from_parts(
        string_of(&field_text(&f, 0)),
        read_pid(&f),
        string_of(&field_text(&f, 2)),
        string_of(&field_text(&f, 3)),
    )
}

fn windows_line(line: &Vec<char>) -> (r: Option<Process>)
    ensures
        match windows_record(line@) {
            Some(v) => r is Some && r->0@ == v,
            None => r is None,
        },
{
    let f = split_fields(line);
    let pid = read_pid(&f);
    if pid == UNSET_PID {
        return None;
    }
    let mut mem = field_text(&f, 4);
    mem.push(' ');
    let mut unit = field_text(&f, 5);
    mem.append(&mut unit);
    mem.push('i');
    mem.push('B');
    let ghost fv = f@.map_values(|x: Vec<char>| x@);
    assert(mem@ =~= field_or_empty(fv, 4) + seq![' '] + field_or_empty(fv, 5) + seq!['i', 'B']);
    Some(Process::from_parts(string_of(&field_text(&f, 0)), pid, string_of(&mem), String::new()))
}

/// Parses the text that the listing command printed into the records it
/// describes.
pub fn parse_listing(format: ListingFormat, text: &str) -> (r: Vec<Process>)
    ensures
        views(r@) == listing_records(format, text@),
{
    let chars = chars_of(text);
    let ls = split_lines(&chars);
    let ghost lv = ls@.map_values(|l: Vec<char>| l@);
    let mut out: Vec<Process> = Vec::new();
    match format {
        ListingFormat::Posix => {
            let mut i: usize = 1;
            if ls.len() == 0 {
                assert(views(out@) =~= Seq::empty());
                return out;
            }
            while i < ls.len()
                invariant
                    1 <= i <= ls.len(),
                    lv == ls@.map_values(|l: Vec<char>| l@),
                    views(out@) =~= lv.drop_first().take(i - 1).map_values(
                        |l: Seq<char>| posix_record(l),
                    ),
                decreases ls.len() - i,
            {
                let p = posix_line(&ls[i]);
                let ghost before = out@;
                out.push(p);
                assert(views(out@) =~= views(before).push(p@));
                assert(lv.drop_first().take(i as int) =~= lv.drop_first().take(i - 1).push(
                    lv[i as int],
                ));
                assert(lv.drop_first().take(i as int).map_values(|l: Seq<char>| posix_record(l))
                    =~= lv.drop_first().take(i - 1).map_values(|l: Seq<char>| posix_record(l)).push(
                    posix_record(lv[i as int]),
                ));
                i = i + 1;
            }
            assert(lv.drop_first().take(i - 1) =~= lv.drop_first());
        },
        ListingFormat::Windows => {
            let mut i: usize = 0;
            while i < ls.len()
                invariant
                    i <= ls.len(),
                    lv == ls@.map_values(|l: Vec<char>| l@),
                    views(out@) =~= lv.take(i as int).filter_map(|l: Seq<char>| windows_record(l)),
                decreases ls.len() - i,
            {
                proof {
                    lv.lemma_filter_map_take_succ(|l: Seq<char>| windows_record(l), i as int);
                }
                let ghost before = out@;
                if let Some(p) = windows_line(&ls[i]) {
                    out.push(p);
                    assert(views(out@) =~= views(before).push(p@));
                }
                i = i + 1;
            }
            assert(lv.take(i as int) =~= lv);
        },
    }
    out
}

} // verus!
