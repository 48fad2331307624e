use port_scanner::config::{end_port_guard, start_port_guard, ArgumentError, Arguments, IpAddress};
use port_scanner::report::{format_open_line, render_report};
use port_scanner::scan::{probe_outcome, OpenPorts};

/// Runs the decision logic of a scan for the given listeners, delivering the
/// probes' reports in the order given by `reverse`.
fn run_scan(args: &Arguments, listening: &[u16], reverse: bool) -> Vec<u16> {
    let mut ports = args.probe_ports();
    if reverse {
        ports.reverse();
    }
    let mut open = OpenPorts::new();
    for port in ports {
        if let Some(p) = probe_outcome(port, listening.contains(&port)) {
            open.record(p);
        }
    }
    open.into_sorted()
}

#[test]
fn test_scan_successful_connection() {
    let args = Arguments::new(IpAddress::V4([127, 0, 0, 1]), Some(8880), Some(8881)).unwrap();
    assert_eq!(args.probe_ports(), vec![8880]);
    let result = probe_outcome(8880, true);
    assert!(result.is_some());
    let sorted = run_scan(&args, &[8880], false);
    assert_eq!(render_report(&sorted), "\n8880 is open\n");
}

#[test]
fn listener_outside_range_gives_empty_report() {
    let args = Arguments::new(IpAddress::loopback(), Some(1), Some(100)).unwrap();
    let sorted = run_scan(&args, &[9000], false);
    assert!(sorted.is_empty());
    assert_eq!(render_report(&sorted), "\n");
}

#[test]
fn two_listeners_reported_ascending_whatever_the_arrival_order() {
    let args = Arguments::new(IpAddress::loopback(), Some(1), Some(500)).unwrap();
    let forward = run_scan(&args, &[100, 300], false);
    let backward = run_scan(&args, &[300, 100], true);
    assert_eq!(forward, vec![100, 300]);
    assert_eq!(backward, vec![100, 300]);
    assert_eq!(render_report(&backward), "\n100 is open\n300 is open\n");
}

#[test]
fn scanning_twice_gives_the_same_report() {
    let args = Arguments::new(IpAddress::loopback(), Some(20), Some(90)).unwrap();
    let listening = [80, 22, 53, 25];
    let first = run_scan(&args, &listening, false);
    let second = run_scan(&args, &listening, true);
    assert_eq!(first, second);
    assert_eq!(first, vec![22, 25, 53, 80]);
}

#[test]
fn closed_ports_never_reported() {
    let args = Arguments::new(IpAddress::loopback(), Some(1), Some(50)).unwrap();
    let sorted = run_scan(&args, &[10, 40], false);
    assert!(!sorted.contains(&11));
    assert!(!sorted.contains(&39));
    assert_eq!(sorted, vec![10, 40]);
}

#[test]
fn start_port_zero_rejected() {
    let r = Arguments::new(IpAddress::loopback(), Some(0), Some(100));
    assert_eq!(r.err(), Some(ArgumentError::StartPortZero));
}

#[test]
fn start_port_checked_before_end_port() {
    let r = Arguments::new(IpAddress::loopback(), Some(0), Some(65535));
    assert_eq!(r.err(), Some(ArgumentError::StartPortZero));
}

#[test]
fn end_port_65535_rejected() {
    let r = Arguments::new(IpAddress::loopback(), Some(1), Some(65535));
    assert_eq!(r.err(), Some(ArgumentError::EndPortTooLarge));
}

#[test]
fn largest_accepted_range() {
    let args = Arguments::new(IpAddress::loopback(), Some(1), Some(65534)).unwrap();
    let ports = args.probe_ports();
    assert_eq!(ports.len(), 65533);
    assert_eq!(ports[0], 1);
    assert_eq!(ports[ports.len() - 1], 65533);
}

#[test]
fn guards() {
    assert!(!start_port_guard(&0));
    assert!(start_port_guard(&1));
    assert!(end_port_guard(&65534));
    assert!(!end_port_guard(&65535));
}

#[test]
fn one_probe_per_port() {
    let args = Arguments::new(IpAddress::loopback(), Some(10), Some(20)).unwrap();
    let ports = args.probe_ports();
    assert_eq!(ports.len(), 10);
    assert_eq!(ports, (10..20).collect::<Vec<u16>>());
}

#[test]
fn empty_range_probes_nothing() {
    let args = Arguments::new(IpAddress::loopback(), Some(5), Some(5)).unwrap();
    assert!(args.probe_ports().is_empty());
    let sorted = run_scan(&args, &[5], false);
    assert!(sorted.is_empty());
    assert_eq!(render_report(&sorted), "\n");
}

#[test]
fn reversed_range_probes_nothing() {
    let args = Arguments::new(IpAddress::loopback(), Some(30), Some(20)).unwrap();
    assert!(args.probe_ports().is_empty());
}

#[test]
fn probe_outcome_closed_is_silent() {
    assert_eq!(probe_outcome(443, false), None);
    assert_eq!(probe_outcome(443, true), Some(443));
}

#[test]
fn open_line_format() {
    assert_eq!(format_open_line(0), "0 is open\n");
    assert_eq!(format_open_line(7), "7 is open\n");
    assert_eq!(format_open_line(10), "10 is open\n");
    assert_eq!(format_open_line(8880), "8880 is open\n");
    assert_eq!(format_open_line(65535), "65535 is open\n");
}

#[test]
fn collector_sorts_numerically() {
    let mut open = OpenPorts::new();
    for p in [9000u16, 80, 443, 8080, 1, 65534] {
        open.record(p);
    }
    assert_eq!(open.len(), 6);
    let sorted = open.into_sorted();
    assert_eq!(sorted, vec![1, 80, 443, 8080, 9000, 65534]);
    assert_eq!(
        render_report(&sorted),
        "\n1 is open\n80 is open\n443 is open\n8080 is open\n9000 is open\n65534 is open\n"
    );
}

#[test]
fn loopback_address() {
    match IpAddress::loopback() {
        IpAddress::V4(o) => assert_eq!(o, [127, 0, 0, 1]),
        IpAddress::V6(_) => panic!("loopback is IPv4"),
    }
}

#[test]
fn defaults_scan_all_ports_but_the_last() {
    let args = Arguments::new(IpAddress::loopback(), None, None).unwrap();
    assert_eq!(args.start_port, 1);
    assert_eq!(args.end_port, 65535);
    let ports = args.probe_ports();
    assert_eq!(ports.len(), 65534);
    assert_eq!(ports[ports.len() - 1], 65534);
}

#[test]
fn given_end_checked_with_default_start() {
    let r = Arguments::new(IpAddress::loopback(), None, Some(65535));
    assert_eq!(r.err(), Some(ArgumentError::EndPortTooLarge));
    let args = Arguments::new(IpAddress::loopback(), None, Some(1000)).unwrap();
    assert_eq!(args.start_port, 1);
    assert_eq!(args.end_port, 1000);
}
