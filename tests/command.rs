use minikv::command::{to_millis, Command};
use minikv::store::Store;

#[test]
fn test_parse_ping() {
    let cmd = Command::parse("PING");
    assert!(matches!(cmd, Command::Ping));
}

#[test]
fn test_parse_get() {
    let cmd = Command::parse("GET name");
    assert!(matches!(cmd, Command::Get { key } if key == "name"));
}

#[test]
fn test_parse_set() {
    let cmd = Command::parse("SET name Alice");
    assert!(matches!(
        cmd,
        Command::SetKey { key, value, ttl: None } if key == "name" && value == "Alice"
    ));
}

#[test]
fn test_parse_set_with_ttl() {
    let cmd = Command::parse("SET name Alice EX 10");
    assert!(matches!(
        cmd,
        Command::SetKey { key, value, ttl: Some(d) }
            if key == "name" && value == "Alice" && d == 10
    ));
}

#[test]
fn test_parse_del() {
    let cmd = Command::parse("DEL name");
    assert!(matches!(cmd, Command::Del { key } if key == "name"));
}

#[test]
fn test_parse_unknown() {
    let cmd = Command::parse("INVALID");
    assert!(matches!(cmd, Command::Unknown));
}

#[test]
fn parse_exists() {
    let cmd = Command::parse("EXISTS name");
    assert!(matches!(cmd, Command::Exists { key } if key == "name"));
}

#[test]
fn parse_splits_on_runs_of_whitespace() {
    let cmd = Command::parse("  GET \t  name \r\n");
    assert!(matches!(cmd, Command::Get { key } if key == "name"));
    let cmd = Command::parse("GET\u{3000}name");
    assert!(matches!(cmd, Command::Get { key } if key == "name"));
}

#[test]
fn parse_is_case_sensitive() {
    assert!(matches!(Command::parse("get name"), Command::Unknown));
    assert!(matches!(Command::parse("Ping"), Command::Unknown));
}

#[test]
fn parse_wrong_arity_is_unknown() {
    assert!(matches!(Command::parse(""), Command::Unknown));
    assert!(matches!(Command::parse("PING extra"), Command::Unknown));
    assert!(matches!(Command::parse("GET"), Command::Unknown));
    assert!(matches!(Command::parse("GET a b"), Command::Unknown));
    assert!(matches!(Command::parse("SET a"), Command::Unknown));
    assert!(matches!(Command::parse("SET a b EX"), Command::Unknown));
    assert!(matches!(Command::parse("SET a b PX 10"), Command::Unknown));
    assert!(matches!(Command::parse("SET a b EX 10 more"), Command::Unknown));
    assert!(matches!(Command::parse("DEL"), Command::Unknown));
    assert!(matches!(Command::parse("EXISTS a b"), Command::Unknown));
    assert!(matches!(Command::parse("FOO BAR BAZ QUX"), Command::Unknown));
}

#[test]
fn parse_malformed_ttl_is_dropped() {
    let cmd = Command::parse("SET k v EX soon");
    assert!(matches!(cmd, Command::SetKey { key, value, ttl: None } if key == "k" && value == "v"));
    let cmd = Command::parse("SET k v EX -5");
    assert!(matches!(cmd, Command::SetKey { ttl: None, .. }));
    let cmd = Command::parse("SET k v EX 18446744073709551616");
    assert!(matches!(cmd, Command::SetKey { ttl: None, .. }));
}

#[test]
fn parse_ttl_bounds() {
    let cmd = Command::parse("SET k v EX +7");
    assert!(matches!(cmd, Command::SetKey { ttl: Some(7), .. }));
    let cmd = Command::parse("SET k v EX 0");
    assert!(matches!(cmd, Command::SetKey { ttl: Some(0), .. }));
    let cmd = Command::parse("SET k v EX 18446744073709551615");
    assert!(matches!(cmd, Command::SetKey { ttl: Some(u64::MAX), .. }));
}

fn run(store: &mut Store, line: &str, now: u64) -> String {
    Command::parse(line).execute_at(store, now)
}

#[test]
fn scenario_ping() {
    let mut store = Store::new();
    assert_eq!(run(&mut store, "PING", 0), "+PING\r\n");
}

#[test]
fn scenario_set_then_get() {
    let mut store = Store::new();
    assert_eq!(run(&mut store, "SET name Alice", 0), "+OK\r\n");
    assert_eq!(run(&mut store, "GET name", 0), "$5\r\nAlice\r\n");
}

#[test]
fn scenario_get_missing() {
    let mut store = Store::new();
    assert_eq!(run(&mut store, "GET missing", 0), "$-1\r\n");
}

#[test]
fn scenario_set_with_ttl_then_exists() {
    let mut store = Store::new();
    assert_eq!(run(&mut store, "SET name Alice EX 10", 1_000), "+OK\r\n");
    assert_eq!(run(&mut store, "EXISTS name", 1_000), ":1\r\n");
    assert_eq!(run(&mut store, "EXISTS name", 11_000), ":1\r\n");
    assert_eq!(run(&mut store, "EXISTS name", 11_001), ":0\r\n");
    assert_eq!(run(&mut store, "GET name", 11_001), "$-1\r\n");
}

#[test]
fn scenario_del_twice() {
    let mut store = Store::new();
    run(&mut store, "SET name Alice", 0);
    assert_eq!(run(&mut store, "DEL name", 0), ":1\r\n");
    assert_eq!(run(&mut store, "DEL name", 0), ":0\r\n");
}

#[test]
fn scenario_unknown_command() {
    let mut store = Store::new();
    assert_eq!(run(&mut store, "FOO BAR BAZ QUX", 0), "-ERR unknown command\r\n");
}

#[test]
fn bulk_length_counts_bytes() {
    let mut store = Store::new();
    run(&mut store, "SET k h\u{e9}llo", 0);
    assert_eq!(run(&mut store, "GET k", 0), "$6\r\nh\u{e9}llo\r\n");
    run(&mut store, "SET k abcdefghijkl", 0);
    assert_eq!(run(&mut store, "GET k", 0), "$12\r\nabcdefghijkl\r\n");
}

#[test]
fn execute_on_the_store_clock() {
    let mut store = Store::new();
    assert_eq!(Command::parse("SET name Alice EX 100").execute(&mut store), "+OK\r\n");
    assert_eq!(Command::parse("GET name").execute(&mut store), "$5\r\nAlice\r\n");
    assert_eq!(Command::parse("EXISTS name").execute(&mut store), ":1\r\n");
    assert_eq!(Command::parse("DEL name").execute(&mut store), ":1\r\n");
    assert_eq!(Command::parse("EXISTS name").execute(&mut store), ":0\r\n");
    assert_eq!(Command::parse("PING").execute(&mut store), "+PING\r\n");
}

#[test]
fn ttl_seconds_become_milliseconds() {
    assert_eq!(to_millis(Some(10)), Some(10_000));
    assert_eq!(to_millis(Some(0)), Some(0));
    assert_eq!(to_millis(None), None);
    assert_eq!(to_millis(Some(18_446_744_073_709_551)), Some(18_446_744_073_709_551_000));
    assert_eq!(to_millis(Some(18_446_744_073_709_552)), Some(u64::MAX));
    assert_eq!(to_millis(Some(u64::MAX)), Some(u64::MAX));
}

#[test]
fn largest_ttl_never_expires() {
    let mut store = Store::new();
    assert_eq!(run(&mut store, "SET k v EX 18446744073709551615", 5), "+OK\r\n");
    assert_eq!(run(&mut store, "EXISTS k", u64::MAX), ":1\r\n");
}
