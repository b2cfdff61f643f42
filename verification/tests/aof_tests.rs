use mini_redis::aof::{format_record, parse_line, LogRecord};
use mini_redis::store::Store;

fn set_rec(k: &str, v: &str) -> LogRecord {
    LogRecord::SetOp { key: String::from(k), value: String::from(v) }
}

fn del_rec(k: &str) -> LogRecord {
    LogRecord::DelOp { key: String::from(k) }
}

#[test]
fn formats_set_line() {
    assert_eq!(format_record(&set_rec("alpha", "1")), "SET alpha 1");
}

#[test]
fn formats_del_line() {
    assert_eq!(format_record(&del_rec("alpha")), "DEL alpha");
}

#[test]
fn set_line_parses_back() {
    let line = format_record(&set_rec("k", "v"));
    match parse_line(&line) {
        Some(LogRecord::SetOp { key, value }) => {
            assert_eq!(key, "k");
            assert_eq!(value, "v");
        },
        _ => panic!("a SET line must parse as a set record"),
    }
}

#[test]
fn del_line_parses_back() {
    let line = format_record(&del_rec("k"));
    match parse_line(&line) {
        Some(LogRecord::DelOp { key }) => assert_eq!(key, "k"),
        _ => panic!("a DEL line must parse as a delete record"),
    }
}

#[test]
fn unrecognised_lines_are_skipped() {
    assert!(parse_line(&String::from("garbage")).is_none());
    assert!(parse_line(&String::from("SET onlykey")).is_none());
    assert!(parse_line(&String::from("SET a b extra")).is_none());
    assert!(parse_line(&String::from("DEL")).is_none());
    assert!(parse_line(&String::from("")).is_none());
}

#[test]
fn recovery_replays_in_order_last_write_wins() {
    let lines = vec![
        String::from("SET a 1"),
        String::from("SET b 2"),
        String::from("DEL a"),
        String::from("not a log line"),
        String::from("SET b 3"),
    ];
    let s = Store::recover(&lines);
    assert!(s.get(&String::from("a")).is_none());
    assert_eq!(s.get(&String::from("b")).unwrap(), "3");
}

#[test]
fn delete_of_absent_key_in_log_is_harmless() {
    let lines = vec![String::from("DEL ghost"), String::from("SET a 1")];
    let s = Store::recover(&lines);
    assert_eq!(s.get(&String::from("a")).unwrap(), "1");
    assert!(s.get(&String::from("ghost")).is_none());
}

#[test]
fn replaying_logged_mutations_reproduces_the_map() {
    // Run a batch of mutations, writing each one's line as the process
    // around the engine would, then restart from those lines alone.
    let mut live = Store::new();
    let mut file: Vec<String> = Vec::new();

    let ops: Vec<LogRecord> = vec![
        set_rec("x", "1"),
        set_rec("y", "2"),
        set_rec("x", "3"),
        del_rec("y"),
        set_rec("z", "4"),
    ];
    for op in &ops {
        match op {
            LogRecord::SetOp { key, value } => {
                file.push(format_record(op));
                live.set(key.clone(), value.clone());
            },
            LogRecord::DelOp { key } => {
                if live.get(key).is_some() {
                    file.push(format_record(op));
                }
                live.del(key);
            },
        }
    }

    let recovered = Store::recover(&file);
    for k in ["x", "y", "z"] {
        let key = String::from(k);
        match (live.get(&key), recovered.get(&key)) {
            (Some(a), Some(b)) => assert_eq!(a, b),
            (None, None) => {},
            _ => panic!("restart must reproduce the exact map state"),
        }
    }
    assert_eq!(recovered.get(&String::from("x")).unwrap(), "3");
    assert!(recovered.get(&String::from("y")).is_none());
    assert_eq!(recovered.get(&String::from("z")).unwrap(), "4");
}
