use ethwatch::config::{check_config, create_report, load_config, StartError};
use ethwatch::counter::{parse_counter, to_decimal, CycleError};
use ethwatch::driver::sweep;
use ethwatch::interface::{is_wrapped_identifier, stats_dir, Interface, WatchError};
use ethwatch::report::{LogReporter, Report, ReportError};

struct FailingReporter {
    calls: usize,
}

impl Report for FailingReporter {
    fn report(&mut self, _tag: String, _value: String) -> Result<(), ReportError> {
        self.calls += 1;
        Err(ReportError::Transport)
    }
}

fn s(x: &str) -> String {
    x.to_string()
}

fn names(xs: &[&str]) -> Vec<String> {
    xs.iter().map(|x| x.to_string()).collect()
}

fn eth0(files: &[&str]) -> Interface {
    Interface::from_path(&s("host."), &s("\"eth0\""), &s("eth"), &Some(names(files))).unwrap()
}

#[test]
fn parse_with_and_without_newline() {
    assert_eq!(parse_counter(&s("1024\n")), Ok(1024));
    assert_eq!(parse_counter(&s("1024")), Ok(1024));
    assert_eq!(parse_counter(&s("0\n")), Ok(0));
    assert_eq!(parse_counter(&s("007")), Ok(7));
    assert_eq!(parse_counter(&s("+5\n")), Ok(5));
}

#[test]
fn parse_largest_value() {
    assert_eq!(parse_counter(&s("18446744073709551615\n")), Ok(u64::MAX));
    assert_eq!(parse_counter(&s("18446744073709551616")), Err(CycleError::Parse));
    assert_eq!(parse_counter(&s("99999999999999999999x")), Err(CycleError::Parse));
}

#[test]
fn parse_rejects_non_numbers() {
    for bad in ["", "\n", "+", "abc\n", "12a", " 12", "12 ", "12\n\n", "-3", "1.5", "\n12"] {
        assert_eq!(parse_counter(&s(bad)), Err(CycleError::Parse), "{:?}", bad);
    }
}

#[test]
fn decimal_rendering() {
    assert_eq!(to_decimal(0), "0");
    assert_eq!(to_decimal(9), "9");
    assert_eq!(to_decimal(10), "10");
    assert_eq!(to_decimal(1024), "1024");
    assert_eq!(to_decimal(u64::MAX), "18446744073709551615");
}

#[test]
fn stats_dir_unwraps_quotes() {
    assert_eq!(stats_dir(&s("\"eth0\"")), Ok(s("/sys/class/net/eth0/statistics/")));
    assert_eq!(stats_dir(&s("\"\"")), Ok(s("/sys/class/net//statistics/")));
    assert_eq!(stats_dir(&s("eth0")), Err(WatchError::InvalidIdentifier));
    assert_eq!(stats_dir(&s("\"")), Err(WatchError::InvalidIdentifier));
    assert_eq!(stats_dir(&s("\"eth0")), Err(WatchError::InvalidIdentifier));
}

#[test]
fn from_path_builds_entries() {
    let w = eth0(&["rx_bytes", "tx_bytes"]);
    assert_eq!(w.name, "\"eth0\"");
    assert_eq!(w.alias, "eth");
    assert_eq!(w.entries.len(), 2);
    assert_eq!(w.entries[0].path, "/sys/class/net/eth0/statistics/rx_bytes");
    assert_eq!(w.entries[0].tag, "host.eth.rx_bytes");
    assert_eq!(w.entries[1].path, "/sys/class/net/eth0/statistics/tx_bytes");
    assert_eq!(w.entries[1].tag, "host.eth.tx_bytes");
}

#[test]
fn from_path_errors() {
    let bad = Interface::from_path(&s("p."), &s("eth0"), &s("e"), &Some(names(&["a"])));
    assert_eq!(bad.err(), Some(WatchError::InvalidIdentifier));
    let missing = Interface::from_path(&s("p."), &s("\"eth9\""), &s("e"), &None);
    assert_eq!(missing.err(), Some(WatchError::Discovery));
    let empty = Interface::from_path(&s("p."), &s("\"lo\""), &s("e"), &Some(vec![])).unwrap();
    assert!(empty.entries.is_empty());
}

#[test]
fn one_sweep_reports_each_counter() {
    let w = eth0(&["rx_bytes", "tx_bytes"]);
    let mut log = LogReporter::new();
    let r = w.report(&vec![Some(s("1024\n")), Some(s("2048\n"))], &mut log);
    assert_eq!(r, vec![Ok(()), Ok(())]);
    assert_eq!(log.take_lines(), vec![s("host.eth.rx_bytes 1024"), s("host.eth.tx_bytes 2048")]);
    assert!(log.take_lines().is_empty());
}

#[test]
fn parse_failure_is_isolated() {
    let w = eth0(&["a", "b", "c"]);
    let mut log = LogReporter::new();
    let r = w.report(&vec![Some(s("1\n")), Some(s("garbage\n")), Some(s("3"))], &mut log);
    assert_eq!(r, vec![Ok(()), Err(CycleError::Parse), Ok(())]);
    assert_eq!(log.lines, vec![s("host.eth.a 1"), s("host.eth.c 3")]);
}

#[test]
fn deleted_counter_fails_only_its_cycle_entry() {
    let w = eth0(&["a", "b", "c"]);
    let mut log = LogReporter::new();
    let first = w.report(&vec![Some(s("1\n")), Some(s("2\n")), Some(s("3\n"))], &mut log);
    assert_eq!(first, vec![Ok(()), Ok(()), Ok(())]);
    let second = w.report(&vec![Some(s("4\n")), None, Some(s("6\n"))], &mut log);
    assert_eq!(second, vec![Ok(()), Err(CycleError::Read), Ok(())]);
    assert_eq!(w.entries.len(), 3);
    assert_eq!(w.entries[1].path, "/sys/class/net/eth0/statistics/b");
    let third = w.report(&vec![Some(s("7\n")), None, Some(s("9\n"))], &mut log);
    assert_eq!(third, vec![Ok(()), Err(CycleError::Read), Ok(())]);
    assert_eq!(
        log.take_lines(),
        vec![
            s("host.eth.a 1"),
            s("host.eth.b 2"),
            s("host.eth.c 3"),
            s("host.eth.a 4"),
            s("host.eth.c 6"),
            s("host.eth.a 7"),
            s("host.eth.c 9"),
        ]
    );
}

#[test]
fn reporter_failure_is_isolated() {
    let w = eth0(&["a", "b"]);
    let mut sink = FailingReporter { calls: 0 };
    let r = w.report(&vec![Some(s("1\n")), Some(s("x"))], &mut sink);
    assert_eq!(r, vec![Err(CycleError::Report), Err(CycleError::Parse)]);
    assert_eq!(sink.calls, 1);
}

#[test]
fn repeated_sweeps_keep_tags() {
    let w = eth0(&["a", "b"]);
    let mut log = LogReporter::new();
    w.report(&vec![Some(s("1\n")), Some(s("2\n"))], &mut log);
    let first: Vec<String> =
        log.take_lines().iter().map(|l| l.split(' ').next().unwrap().to_string()).collect();
    w.report(&vec![Some(s("10\n")), Some(s("20\n"))], &mut log);
    let second: Vec<String> =
        log.take_lines().iter().map(|l| l.split(' ').next().unwrap().to_string()).collect();
    assert_eq!(first, second);
    assert_eq!(first, vec![s("host.eth.a"), s("host.eth.b")]);
}

#[test]
fn load_config_reads_string_values() {
    let c = load_config(&s("{\"eth\": \"eth0\", \"wifi\": \"wlan0\"}")).unwrap();
    assert_eq!(c, vec![(s("eth"), s("\"eth0\"")), (s("wifi"), s("\"wlan0\""))]);
    assert_eq!(load_config(&s("{}")), Ok(vec![]));
}

#[test]
fn load_config_rejects_malformed() {
    assert_eq!(load_config(&s("{\"eth\": 5}")), Err(StartError::Malformed));
    assert_eq!(load_config(&s("[\"eth0\"]")), Err(StartError::Malformed));
    assert_eq!(load_config(&s("not json")), Err(StartError::Malformed));
    assert_eq!(load_config(&s("{\"eth\": {\"a\": \"b\"}}")), Err(StartError::Malformed));
}

#[test]
fn create_report_keeps_discovered() {
    let config = vec![(s("eth"), s("\"eth0\"")), (s("gone"), s("\"eth9\"")), (s("bad"), s("x"))];
    let listings = vec![Some(names(&["rx_bytes"])), None, Some(names(&["rx_bytes"]))];
    let ws = create_report(&s("host."), &config, &listings).unwrap();
    assert_eq!(ws.len(), 1);
    assert_eq!(ws[0].alias, "eth");
    assert_eq!(ws[0].entries[0].tag, "host.eth.rx_bytes");
}

#[test]
fn missing_directory_is_empty_configuration() {
    let config = vec![(s("eth"), s("\"eth0\""))];
    let r = create_report(&s("host."), &config, &vec![None]);
    assert_eq!(r.err(), Some(StartError::EmptyConfiguration));
    let none = create_report(&s("host."), &vec![], &vec![]);
    assert_eq!(none.err(), Some(StartError::EmptyConfiguration));
}

#[test]
fn sweep_gives_one_outcome_per_counter() {
    let ws = vec![
        eth0(&["a", "b"]),
        Interface::from_path(&s("host."), &s("\"wlan0\""), &s("wifi"), &Some(names(&["c"])))
            .unwrap(),
    ];
    let contents = vec![vec![Some(s("1\n")), None], vec![Some(s("zz"))]];
    let mut log = LogReporter::new();
    let r = sweep(&ws, &contents, &mut log);
    assert_eq!(r, vec![vec![Ok(()), Err(CycleError::Read)], vec![Err(CycleError::Parse)]]);
    assert_eq!(r.iter().map(|v| v.len()).sum::<usize>(), 3);
    assert_eq!(log.lines, vec![s("host.eth.a 1")]);
}

#[test]
fn wrapped_identifiers() {
    assert!(is_wrapped_identifier("\"eth0\""));
    assert!(is_wrapped_identifier("\"\""));
    assert!(!is_wrapped_identifier("eth0"));
    assert!(!is_wrapped_identifier("\""));
    assert!(!is_wrapped_identifier(""));
    assert!(!is_wrapped_identifier("'eth0'"));
}

#[test]
fn log_reporter_never_fails_and_records_line() {
    let mut log = LogReporter::new();
    assert_eq!(log.report(s("host.eth.rx_bytes"), s("1024")), Ok(()));
    assert_eq!(log.report(s(""), s("")), Ok(()));
    assert_eq!(log.lines, vec![s("host.eth.rx_bytes 1024"), s(" ")]);
}

#[test]
fn check_config_accepts_only_string_values() {
    let good = vec![(s("eth"), s("\"eth0\""))];
    assert_eq!(check_config(good.clone()), Ok(good));
    assert_eq!(check_config(vec![]), Ok(vec![]));
    let bad = vec![(s("eth"), s("\"eth0\"")), (s("n"), s("5"))];
    assert_eq!(check_config(bad), Err(StartError::Malformed));
    assert_eq!(check_config(vec![(s("e"), s("\""))]), Err(StartError::Malformed));
}

#[test]
fn accepting_reporter_gets_every_good_sample() {
    let w = eth0(&["a", "b", "c", "d"]);
    let mut log = LogReporter::new();
    let r = w.report(
        &vec![Some(s("18446744073709551616\n")), Some(s("007\n")), Some(s(" 5\n")), Some(s("5\n\n"))],
        &mut log,
    );
    assert_eq!(
        r,
        vec![Err(CycleError::Parse), Ok(()), Err(CycleError::Parse), Err(CycleError::Parse)]
    );
    assert_eq!(log.lines, vec![s("host.eth.b 7")]);
}
