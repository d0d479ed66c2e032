use kubesim::simulation::workload::{parse_row, CsvLoad, WorkloadError};
use kubesim::text::split;

#[test]
fn split_keeps_empty_pieces() {
    let parts = split("a,,b", ',');
    assert_eq!(parts, vec!["a".to_string(), "".to_string(), "b".to_string()]);
    assert_eq!(split("", ';'), vec!["".to_string()]);
    assert_eq!(split("x;", ';'), vec!["x".to_string(), "".to_string()]);
}

#[test]
fn a_constant_row_is_read() {
    let row = parse_row("  3,0.5,100,200,,,,app:web;tier:fe,zone:a,constant;10;20;5.0 \n").unwrap();
    assert_eq!(row.amount, 3);
    assert_eq!(row.arrival_time, "0.5");
    assert_eq!((row.request_cpu, row.request_memory), (100, 200));
    assert_eq!((row.limit_cpu, row.limit_memory), (u64::MAX, u64::MAX));
    assert_eq!(row.priority, 0);
    assert_eq!(
        row.labels,
        vec![("app".to_string(), "web".to_string()), ("tier".to_string(), "fe".to_string())]
    );
    assert_eq!(row.node_selector, vec![("zone".to_string(), "a".to_string())]);
    match row.load {
        CsvLoad::Constant { cpu, memory, duration } => {
            assert_eq!((cpu, memory), (10, 20));
            assert_eq!(duration, "5.0");
        }
        _ => panic!("expected a constant load"),
    }
}

#[test]
fn a_busybox_row_with_limits_and_priority_is_read() {
    let row = parse_row("1,2,3,4,30,40,-7,,,busybox;1;2;3;4;10;2.5").unwrap();
    assert_eq!((row.limit_cpu, row.limit_memory, row.priority), (30, 40, -7));
    assert!(row.labels.is_empty());
    match row.load {
        CsvLoad::BusyBox { cpu_down, memory_down, cpu_up, memory_up, duration, shift_time } => {
            assert_eq!((cpu_down, memory_down, cpu_up, memory_up), (1, 2, 3, 4));
            assert_eq!((duration.as_str(), shift_time.as_str()), ("10", "2.5"));
        }
        _ => panic!("expected a busybox load"),
    }
}

#[test]
fn each_refusal_has_its_reason() {
    assert_eq!(parse_row("1,2,3").unwrap_err(), WorkloadError::MissingFields);
    assert_eq!(parse_row("1,0,x,4,,,,,,constant;1;2;3").unwrap_err(), WorkloadError::BadNumber);
    assert_eq!(parse_row("one,0,3,4,,,,,,constant;1;2;3").unwrap_err(), WorkloadError::BadNumber);
    assert_eq!(parse_row("1,0,3,4,,,,bad,,constant;1;2;3").unwrap_err(), WorkloadError::BadPair);
    assert_eq!(parse_row("1,0,3,4,,,,,a:b:c,constant;1;2;3").unwrap_err(), WorkloadError::BadPair);
    assert_eq!(parse_row("1,0,3,4,,,,,,constant;1;2").unwrap_err(), WorkloadError::BadLoadFields);
    assert_eq!(parse_row("1,0,3,4,,,,,,busybox;1;2").unwrap_err(), WorkloadError::BadLoadFields);
    assert_eq!(parse_row("1,0,3,4,,,,,,constant;x;2;3").unwrap_err(), WorkloadError::BadNumber);
    assert_eq!(parse_row("1,0,3,4,,,,,,gpu;1").unwrap_err(), WorkloadError::UnknownLoad);
}

#[test]
fn numbers_follow_integer_parsing() {
    let row = parse_row("+5,0,3,4,18446744073709551616,x,+9,,,constant;1;2;3").unwrap();
    assert_eq!(row.amount, 5);
    assert_eq!(row.limit_cpu, u64::MAX);
    assert_eq!(row.limit_memory, u64::MAX);
    assert_eq!(row.priority, 9);
}
