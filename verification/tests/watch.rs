use a3s_dev::watch::{glob_match, ignored, Debouncer, FileWatcher};

fn cs(s: &str) -> Vec<char> {
    s.chars().collect()
}

fn glob(p: &str, t: &str) -> bool {
    glob_match(&cs(p), &cs(t))
}

#[test]
fn glob_matches_stars_and_question_marks() {
    assert!(glob("*.log", "app.log"));
    assert!(glob("*.log", ".log"));
    assert!(!glob("*.log", "app.log.1"));
    assert!(glob("a?c", "abc"));
    assert!(!glob("a?c", "ac"));
    assert!(!glob("a?c", "abbc"));
    assert!(glob("*", ""));
    assert!(glob("*", "anything/at/all"));
    assert!(glob("**", "x"));
    assert!(glob("a*b*c", "aXXbYYc"));
    assert!(glob("a*b*c", "abc"));
    assert!(!glob("a*b*c", "aXXbYY"));
    assert!(glob("", ""));
    assert!(!glob("", "x"));
    assert!(!glob("x", ""));
    assert!(glob("node_modules", "node_modules"));
    assert!(!glob("node_modules", "node_modules2"));
    assert!(glob("*a*a*a*", "banana"));
    assert!(!glob("*a*a*a*a*", "banana"));
    assert!(glob("?*", "x"));
    assert!(!glob("?*", ""));
}

#[test]
fn path_is_ignored_as_a_whole_or_by_a_part() {
    let patterns = vec![cs("node_modules"), cs("*.tmp"), cs("target/*")];
    assert!(ignored(&patterns, "src/node_modules/pkg/index.js"));
    assert!(ignored(&patterns, "build/out.tmp"));
    assert!(ignored(&patterns, "out.tmp"));
    assert!(ignored(&patterns, "target/debug"));
    assert!(!ignored(&patterns, "src/main.rs"));
    assert!(!ignored(&patterns, "src/target/debug"));
    assert!(!ignored(&patterns, ""));
    assert!(!ignored(&vec![], "anything"));
}

#[test]
fn burst_of_changes_fires_once() {
    let mut d = Debouncer::new(200);
    assert!(d.change(1000));
    assert!(!d.change(1001));
    assert!(!d.change(1100));
    assert!(!d.change(1199));
    assert_eq!(d.last, Some(1000));
    assert!(d.change(1200));
    assert!(!d.change(1399));
    assert!(d.change(1400));
}

#[test]
fn debouncer_without_a_window_lets_everything_through() {
    let mut d = Debouncer::new(0);
    assert!(d.change(5));
    assert!(d.change(5));
    assert!(!d.change(4));
}

#[test]
fn watcher_asks_for_a_restart_once_per_burst() {
    let mut w = FileWatcher::new(&vec!["*.log".to_string()], true, 500);
    assert!(!w.on_change("logs/app.log", 0));
    assert!(w.on_change("src/main.rs", 10));
    assert!(!w.on_change("src/lib.rs", 20));
    assert!(!w.on_change("app.log", 600));
    assert!(w.on_change("src/lib.rs", 600));
}

#[test]
fn watcher_that_does_not_restart_asks_for_nothing() {
    let mut w = FileWatcher::new(&vec![], false, 500);
    assert!(!w.on_change("src/main.rs", 10));
    assert_eq!(w.debounce.last, None);
}
