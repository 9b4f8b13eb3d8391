use fzk::text::{decimal_of, parse_u64, split_fields, split_lines, strip_exe_of};
use fzk::{parse_listing, ListingFormat, Process, UNSET_PID};

fn chars(s: &str) -> Vec<char> {
    s.chars().collect()
}

#[test]
fn new_process_is_unset() {
    let p = Process::new();
    assert_eq!(p.get_command(), "");
    assert_eq!(p.get_pid(), UNSET_PID);
    assert_eq!(p.get_pid(), u64::MAX);
    assert_eq!(p.get_mem(), "");
    assert_eq!(p.get_cpu(), "");
}

#[test]
fn posix_listing_skips_header_and_maps_columns() {
    let text = "COMMAND PID %MEM %CPU\nbash 42 0.1 0.0\nchrome   1234\t3.5  12.0\n";
    let ps = parse_listing(ListingFormat::Posix, text);
    assert_eq!(ps.len(), 2);
    assert_eq!(ps[0].get_command(), "bash");
    assert_eq!(ps[0].get_pid(), 42);
    assert_eq!(ps[0].get_mem(), "0.1");
    assert_eq!(ps[0].get_cpu(), "0.0");
    assert_eq!(ps[1].get_command(), "chrome");
    assert_eq!(ps[1].get_pid(), 1234);
    assert_eq!(ps[1].get_mem(), "3.5");
    assert_eq!(ps[1].get_cpu(), "12.0");
}

#[test]
fn posix_listing_keeps_lines_with_unreadable_pid() {
    let text = "COMMAND PID %MEM %CPU\nweird abc 1.0 2.0\n\nshort\n";
    let ps = parse_listing(ListingFormat::Posix, text);
    assert_eq!(ps.len(), 3);
    assert_eq!(ps[0].get_command(), "weird");
    assert_eq!(ps[0].get_pid(), UNSET_PID);
    assert_eq!(ps[0].get_mem(), "1.0");
    assert_eq!(ps[1].get_command(), "");
    assert_eq!(ps[1].get_pid(), UNSET_PID);
    assert_eq!(ps[2].get_command(), "short");
    assert_eq!(ps[2].get_mem(), "");
    assert_eq!(ps[2].get_cpu(), "");
}

#[test]
fn posix_listing_of_empty_or_header_only_text_is_empty() {
    assert_eq!(parse_listing(ListingFormat::Posix, "").len(), 0);
    assert_eq!(parse_listing(ListingFormat::Posix, "COMMAND PID %MEM %CPU\n").len(), 0);
}

#[test]
fn windows_listing_drops_unreadable_pids_and_joins_memory() {
    let text = "\nsvchost.exe 1234 Services 0 12,345 K\nSystem Idle Process 0 Services 0 8 K\nexplorer.exe 5678 Console 1 98,765 K\r\n";
    let ps = parse_listing(ListingFormat::Windows, text);
    assert_eq!(ps.len(), 2);
    assert_eq!(ps[0].get_command(), "svchost.exe");
    assert_eq!(ps[0].get_pid(), 1234);
    assert_eq!(ps[0].get_mem(), "12,345 KiB");
    assert_eq!(ps[0].get_cpu(), "");
    assert_eq!(ps[1].get_command(), "explorer.exe");
    assert_eq!(ps[1].get_pid(), 5678);
    assert_eq!(ps[1].get_mem(), "98,765 KiB");
}

#[test]
fn windows_listing_drops_the_unset_pid_itself() {
    let text = "odd.exe 18446744073709551615 Console 1 1 K\n";
    assert_eq!(parse_listing(ListingFormat::Windows, text).len(), 0);
}

#[test]
fn windows_records_have_distinct_pids_when_lines_do() {
    let text = "a.exe 1 S 0 1 K\nb.exe 2 S 0 1 K\nc.exe x S 0 1 K\nd.exe 3 S 0 1 K\n";
    let ps = parse_listing(ListingFormat::Windows, text);
    let pids: Vec<u64> = ps.iter().map(|p| p.get_pid()).collect();
    assert_eq!(pids, vec![1, 2, 3]);
}

#[test]
fn parse_u64_reads_like_std() {
    assert_eq!(parse_u64(&chars("0")), Some(0));
    assert_eq!(parse_u64(&chars("+17")), Some(17));
    assert_eq!(parse_u64(&chars("18446744073709551615")), Some(u64::MAX));
    assert_eq!(parse_u64(&chars("18446744073709551616")), None);
    assert_eq!(parse_u64(&chars("")), None);
    assert_eq!(parse_u64(&chars("+")), None);
    assert_eq!(parse_u64(&chars("-1")), None);
    assert_eq!(parse_u64(&chars("12a")), None);
}

#[test]
fn decimal_of_writes_numbers() {
    assert_eq!(decimal_of(0), chars("0"));
    assert_eq!(decimal_of(42), chars("42"));
    assert_eq!(decimal_of(u64::MAX), chars("18446744073709551615"));
}

#[test]
fn strip_exe_removes_only_a_trailing_suffix() {
    assert_eq!(strip_exe_of(&chars("chrome.exe")), chars("chrome"));
    assert_eq!(strip_exe_of(&chars("chrome")), chars("chrome"));
    assert_eq!(strip_exe_of(&chars(".exe")), chars(""));
    assert_eq!(strip_exe_of(&chars("a.exe.bak")), chars("a.exe.bak"));
}

#[test]
fn fields_and_lines_split_text() {
    let f = split_fields(&chars("  a\tbc  d \r"));
    assert_eq!(f, vec![chars("a"), chars("bc"), chars("d")]);
    let l = split_lines(&chars("x\n\ny\n"));
    assert_eq!(l, vec![chars("x"), chars(""), chars("y")]);
    assert_eq!(split_lines(&chars("")).len(), 0);
    assert_eq!(split_lines(&chars("\n")), vec![chars("")]);
}
