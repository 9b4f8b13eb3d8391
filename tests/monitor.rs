use fzk::ieee::ONE_BITS;
use fzk::{KillStatus, ListingError, ListingFormat, Monitor, ProcessMonitor, UNSET_PID};

const LISTING: &str = "COMMAND PID %MEM %CPU\nchrome 100 5.0 1.0\nbash 42 0.1 0.0\nchromium 142 2.0 0.5\nbash 43 0.1 0.0\nchrome.exe 9999 1.0 1.0\n";

fn loaded() -> Monitor {
    let mut m = Monitor::new(3.0f32.to_bits(), 0.3f32.to_bits(), 25, ListingFormat::Posix);
    m.get_procs_from_system(Ok(LISTING.to_string()));
    m
}

fn pids(ps: &[fzk::Process]) -> Vec<u64> {
    ps.iter().map(|p| p.get_pid()).collect()
}

#[test]
fn new_monitor_clamps_its_settings() {
    let m = Monitor::new(0.5f32.to_bits(), 1.5f32.to_bits(), 0, ListingFormat::Windows);
    assert_eq!(f32::from_bits(m.get_interval()), 1.0);
    assert_eq!(m.get_threshold(), ONE_BITS);
    assert_eq!(m.get_num_matches(), 1);
    assert_eq!(m.get_format(), ListingFormat::Windows);
    assert!(m.get_all_procs().is_none());
    let m = Monitor::new(3.0f32.to_bits(), (-0.2f32).to_bits(), 7, ListingFormat::Posix);
    assert_eq!(f32::from_bits(m.get_interval()), 3.0);
    assert_eq!(f32::from_bits(m.get_threshold()), 0.0);
    assert_eq!(m.get_num_matches(), 7);
}

#[test]
fn refresh_replaces_snapshot_and_failures_keep_it() {
    let mut m = loaded();
    assert_eq!(pids(&m.get_all_procs().unwrap()), vec![100, 42, 142, 43, 9999]);
    m.get_procs_from_system(Err(ListingError::ExecutionFailure));
    assert_eq!(m.get_all_procs().unwrap().len(), 5);
    m.get_procs_from_system(Err(ListingError::SpawnFailure));
    m.get_procs_from_system(Err(ListingError::DecodeFailure));
    assert_eq!(m.get_all_procs().unwrap().len(), 5);
    m.get_procs_from_system(Ok("COMMAND PID %MEM %CPU\nvim 7 1.0 0.0\n".to_string()));
    assert_eq!(pids(&m.get_all_procs().unwrap()), vec![7]);
    m.get_procs_from_system(Ok(String::new()));
    assert!(m.get_all_procs().is_none());
}

#[test]
fn fuzzy_by_name_strips_exe_and_maps_keys_to_first_record() {
    let m = loaded();
    let r = m.get_procs_by_name_fuzzy("chrome", false).unwrap();
    // "chrome" and "chrome.exe" share the key "chrome": both map to the first record.
    assert_eq!(pids(&r)[..2], [100, 100]);
    assert_eq!(r[0].get_command(), "chrome");
    assert!(pids(&r).contains(&142));
    assert!(!pids(&r).contains(&42));
    assert!(m.get_procs_by_name_fuzzy("zzzz", false).is_none());
}

#[test]
fn fuzzy_by_pid_ranks_exact_match_first() {
    let m = loaded();
    let r = m.get_procs_by_name_fuzzy("42", true).unwrap();
    // "142" and "43" share one trigram of three with "42" and tie: listing order decides.
    assert_eq!(pids(&r), vec![42, 142, 43]);
}

#[test]
fn fuzzy_result_is_limited() {
    let mut m = Monitor::new(3.0f32.to_bits(), 0.0f32.to_bits(), 2, ListingFormat::Posix);
    m.get_procs_from_system(Ok(LISTING.to_string()));
    assert_eq!(m.get_procs_by_name_fuzzy("chr", false).unwrap().len(), 2);
}

#[test]
fn successful_kill_removes_first_record_with_pid() {
    let mut m = loaded();
    let target = m.get_all_procs().unwrap()[1].clone();
    m.kill_proc(&target, KillStatus::Killed);
    assert_eq!(pids(&m.get_all_procs().unwrap()), vec![100, 142, 43, 9999]);
}

#[test]
fn failed_kill_keeps_snapshot() {
    let mut m = loaded();
    let target = m.get_all_procs().unwrap()[0].clone();
    m.kill_proc(&target, KillStatus::Failed);
    assert_eq!(pids(&m.get_all_procs().unwrap()), vec![100, 42, 142, 43, 9999]);
}

#[test]
fn second_kill_of_a_gone_pid_changes_nothing() {
    let mut m = loaded();
    let target = m.get_all_procs().unwrap()[2].clone();
    m.kill_proc(&target, KillStatus::Killed);
    let after_first = pids(&m.get_all_procs().unwrap());
    m.kill_proc(&target, KillStatus::Killed);
    assert_eq!(pids(&m.get_all_procs().unwrap()), after_first);
    assert_eq!(after_first, vec![100, 42, 43, 9999]);
    let unset = fzk::Process::new();
    assert_eq!(unset.get_pid(), UNSET_PID);
    m.kill_proc(&unset, KillStatus::Killed);
    assert_eq!(pids(&m.get_all_procs().unwrap()), after_first);
}

#[test]
fn procs_named_selects_exact_commands() {
    let m = loaded();
    assert_eq!(pids(&m.procs_named("bash")), vec![42, 43]);
    assert_eq!(pids(&m.procs_named("chrome")), vec![100]);
    assert!(m.procs_named("bas").is_empty());
}

#[test]
fn match_keys_are_pids_or_stripped_commands() {
    let m = loaded();
    assert_eq!(m.match_keys(false), vec!["chrome", "bash", "chromium", "bash", "chrome"]);
    assert_eq!(m.match_keys(true), vec!["100", "42", "142", "43", "9999"]);
}

#[test]
fn records_for_maps_each_key_to_its_first_record() {
    let m = loaded();
    assert_eq!(pids(&m.records_for(false, &vec![4, 3, 2])), vec![100, 42, 142]);
    assert_eq!(pids(&m.records_for(true, &vec![4, 3])), vec![9999, 43]);
    assert!(m.records_for(false, &Vec::new()).is_empty());
}
