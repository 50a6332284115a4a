use rtop::filter::FilterCriteria;
use rtop::input::parse_cpu_threshold;
use rtop::keys::{is_critical, is_critical_lowered, Key, ProcessAction};
use rtop::model::{ProcessInfo, SortColumn};
use rtop::mouse::MouseKind;
use rtop::state::{App, Area, InputMode, Page, Preferences};
use rtop::stats::{calculate_avg_cpu, calculate_memory, calculate_network_totals, generate_sparkline, generate_sparkline_with_max};
use rtop::text::{contains, decimal_chars, parse_u64};

fn chars(s: &str) -> Vec<char> {
    s.chars().collect()
}

fn info(pid: u32, name: &str, user: Option<u32>, status: &str) -> ProcessInfo {
    ProcessInfo { pid, parent: None, name: name.to_string(), cpu_usage: 0, memory: 0, user_id: user, status: status.to_string() }
}

#[test]
fn search_ignores_case_of_name_and_query() {
    let mut f = FilterCriteria::none();
    f.search_query = chars("FIREFOX");
    assert!(f.accepts_info(&info(9000, "firefox-bin", None, "")));
    f.search_query = chars("firefox");
    assert!(f.accepts_info(&info(9000, "FIREFOX", None, "")));
}

#[test]
fn search_hit_on_lowered_text() {
    assert!(FilterCriteria::search_hit(&chars("firefox"), &chars("fox"), 17, &chars("FOX")));
    assert!(FilterCriteria::search_hit(&chars("bash"), &chars("x"), 1234, &chars("23")));
    assert!(!FilterCriteria::search_hit(&chars("bash"), &chars("x"), 1234, &chars("5")));
}

#[test]
fn critical_words_on_lowered_name() {
    assert!(is_critical_lowered(3, &chars("anything")));
    assert!(is_critical_lowered(300, &chars("systemd-udevd")));
    assert!(!is_critical_lowered(300, &chars("SystemD")));
}

#[test]
fn substring_search() {
    assert!(contains(&chars("firefox"), &chars("fox")));
    assert!(contains(&chars("firefox"), &chars("")));
    assert!(!contains(&chars("fox"), &chars("firefox")));
    assert!(!contains(&chars("firefox"), &chars("foxy")));
}

#[test]
fn decimal_spelling() {
    assert_eq!(decimal_chars(0), chars("0"));
    assert_eq!(decimal_chars(4096), chars("4096"));
}

#[test]
fn unsigned_parsing() {
    assert_eq!(parse_u64(&chars("0042")), Some(42));
    assert_eq!(parse_u64(&chars("18446744073709551615")), Some(u64::MAX));
    assert_eq!(parse_u64(&chars("18446744073709551616")), None);
    assert_eq!(parse_u64(&chars("")), None);
    assert_eq!(parse_u64(&chars("1a")), None);
}

#[test]
fn cpu_threshold_parsing() {
    assert_eq!(parse_cpu_threshold(&chars("50")), Some(5000));
    assert_eq!(parse_cpu_threshold(&chars("12.345")), Some(1235));
    assert_eq!(parse_cpu_threshold(&chars("12.34")), Some(1234));
    assert_eq!(parse_cpu_threshold(&chars(".5")), Some(50));
    assert_eq!(parse_cpu_threshold(&chars("7.")), Some(700));
    assert_eq!(parse_cpu_threshold(&chars("150")), Some(10000));
    assert_eq!(parse_cpu_threshold(&chars("99999999999999999999999")), Some(10000));
    assert_eq!(parse_cpu_threshold(&chars(".")), None);
    assert_eq!(parse_cpu_threshold(&chars("")), None);
    assert_eq!(parse_cpu_threshold(&chars("1.2.3")), None);
}

#[test]
fn filter_matches_name_pid_user_and_status() {
    let mut f = FilterCriteria::none();
    let p = info(4321, "FireFox", Some(1000), "Sleeping");
    assert!(f.accepts_info(&p));
    f.search_query = chars("firefox");
    assert!(f.accepts_info(&p));
    f.search_query = chars("432");
    assert!(f.accepts_info(&p));
    f.search_query = chars("chrome");
    assert!(!f.accepts_info(&p));
    f.search_query = vec![];
    f.user_filter = Some(chars("100"));
    assert!(f.accepts_info(&p));
    assert!(!f.accepts_info(&info(1, "x", None, "Sleeping")));
    f.user_filter = None;
    f.status_filter = Some(chars("SLEEP"));
    assert!(f.accepts_info(&p));
    f.status_filter = Some(chars("run"));
    assert!(!f.accepts_info(&p));
    f.status_filter = None;
    f.memory_threshold = Some(1);
    assert!(!f.accepts_info(&p));
}

#[test]
fn critical_processes() {
    assert!(is_critical(&info(5, "bash", None, "")));
    assert!(is_critical(&info(500, "SystemD-journald", None, "")));
    assert!(is_critical(&info(600, "my_init", None, "")));
    assert!(is_critical(&info(700, "kernel_task", None, "")));
    assert!(!is_critical(&info(800, "bash", None, "")));
}

fn app() -> App {
    let mut a = App::new(Preferences::default());
    a.table_area = Area { x: 0, y: 5, width: 80, height: 14 };
    a.header_area = Area { x: 0, y: 5, width: 80, height: 3 };
    a.build_process_tree(&vec![
        info(300, "one", Some(1), "Running"),
        info(301, "two", Some(1), "Running"),
        info(302, "three", Some(1), "Running"),
    ]);
    a
}

#[test]
fn quit_and_page_keys() {
    let mut a = app();
    assert!(a.handle_key_event(Key::Char('q'), false).quit);
    assert!(a.handle_key_event(Key::Char('c'), true).quit);
    a.handle_key_event(Key::Char('?'), false);
    assert_eq!(a.page, Page::Help);
    let r = a.handle_key_event(Key::Esc, false);
    assert!(!r.quit);
    assert_eq!(a.page, Page::Processes);
    assert!(a.handle_key_event(Key::Esc, false).quit);
}

#[test]
fn sort_keys_flip_direction() {
    let mut a = app();
    assert_eq!(a.sort_column, SortColumn::Cpu);
    assert!(a.reverse_sort);
    let r = a.handle_key_event(Key::Char('p'), false);
    assert!(r.refresh);
    assert_eq!(a.sort_column, SortColumn::Pid);
    assert!(!a.reverse_sort);
    assert_eq!(a.preferences.sort_column, SortColumn::Pid);
}

#[test]
fn interval_keys_stay_in_bounds() {
    let mut a = app();
    for _ in 0..20 {
        a.handle_key_event(Key::Char('+'), false);
    }
    assert_eq!(a.update_interval_ms, 100);
    for _ in 0..100 {
        a.handle_key_event(Key::Char('-'), false);
    }
    assert_eq!(a.update_interval_ms, 6000);
    a.handle_key_event(Key::Char('i'), false);
    assert_eq!(a.input_mode, InputMode::UpdateInterval);
    assert_eq!(a.input_buffer, chars("6000"));
    for _ in 0..4 {
        a.handle_key_event(Key::Backspace, false);
    }
    a.handle_key_event(Key::Char('5'), false);
    a.handle_key_event(Key::Char('x'), false);
    let r = a.handle_key_event(Key::Enter, false);
    assert!(r.save_preferences);
    assert_eq!(a.update_interval_ms, 100);
    assert_eq!(a.input_mode, InputMode::Normal);
}

#[test]
fn filter_overlays_set_and_reject() {
    let mut a = app();
    a.handle_key_event(Key::Char('w'), false);
    assert_eq!(a.input_mode, InputMode::SelectFilter);
    a.handle_key_event(Key::Char('3'), false);
    a.handle_key_event(Key::Enter, false);
    assert_eq!(a.input_mode, InputMode::CpuThreshold);
    for c in "12.5".chars() {
        a.handle_key_event(Key::Char(c), false);
    }
    let r = a.handle_key_event(Key::Enter, false);
    assert!(r.refresh);
    assert_eq!(a.filter.cpu_threshold, Some(1250));
    a.input_mode = InputMode::CpuThreshold;
    a.handle_key_event(Key::Char('.'), false);
    a.handle_key_event(Key::Enter, false);
    assert_eq!(a.filter.cpu_threshold, Some(1250));
    a.input_mode = InputMode::MemoryThreshold;
    a.handle_key_event(Key::Char('2'), false);
    a.handle_key_event(Key::Enter, false);
    assert_eq!(a.filter.memory_threshold, Some(2 * 1024 * 1024));
    a.input_mode = InputMode::MemoryThreshold;
    for c in "99999999999999".chars() {
        a.handle_key_event(Key::Char(c), false);
    }
    a.handle_key_event(Key::Enter, false);
    assert_eq!(a.filter.memory_threshold, Some(2 * 1024 * 1024));
    a.input_mode = InputMode::UserFilter;
    a.handle_key_event(Key::Char('1'), false);
    a.handle_key_event(Key::Enter, false);
    assert_eq!(a.filter.user_filter, Some(chars("1")));
    a.handle_key_event(Key::Char('l'), false);
    assert_eq!(a.filter.user_filter, None);
    assert_eq!(a.filter.cpu_threshold, None);
}

#[test]
fn search_edits_query_and_asks_for_first_row() {
    let mut a = app();
    a.handle_key_event(Key::Char('/'), false);
    assert!(a.search_mode);
    let r = a.handle_key_event(Key::Char('t'), false);
    assert!(r.refresh && r.select_first);
    assert_eq!(a.filter.search_query, chars("t"));
    a.handle_key_event(Key::Esc, false);
    assert!(!a.search_mode);
    assert!(a.filter.search_query.is_empty());
}

#[test]
fn kill_confirmation_for_critical_processes() {
    let mut a = App::new(Preferences::default());
    a.build_process_tree(&vec![info(7, "sh", None, "")]);
    let r = a.handle_key_event(Key::Char('k'), false);
    assert!(r.action.is_none());
    assert_eq!(a.input_mode, InputMode::ConfirmKill);
    assert_eq!(a.pending_kill_pid, Some(7));
    let r = a.handle_key_event(Key::Char('y'), false);
    let req = r.action.unwrap();
    assert_eq!(req.action, ProcessAction::Terminate);
    assert_eq!(req.pid, 7);
    assert_eq!(a.input_mode, InputMode::Normal);
    let s = a.handle_key_event(Key::Char('s'), false).action.unwrap();
    assert_eq!(s.action, ProcessAction::Stop);
    a.report_failure("denied".to_string());
    assert_eq!(a.input_mode, InputMode::Error);
    a.handle_key_event(Key::Enter, false);
    assert!(a.errors.is_empty());
}

#[test]
fn header_double_click_sorts_by_column() {
    let mut a = app();
    // line numbers take cells 0..4, pid 4..14, name from 14.
    let r1 = a.handle_mouse(MouseKind::Down, 6, 6, 1000);
    assert!(!r1.refresh);
    let r2 = a.handle_mouse(MouseKind::Down, 6, 6, 1200);
    assert!(r2.refresh);
    assert_eq!(a.sort_column, SortColumn::Pid);
    assert!(!a.reverse_sort);
}

#[test]
fn table_click_selects_row() {
    let mut a = app();
    a.handle_mouse(MouseKind::Down, 10, 9, 0);
    assert_eq!(a.selected, Some(2));
}

#[test]
fn numeric_summaries() {
    assert_eq!(calculate_avg_cpu(&vec![1000, 3000]), 2000);
    assert_eq!(calculate_avg_cpu(&vec![]), 0);
    assert_eq!(calculate_memory(512, 2048), 25);
    assert_eq!(calculate_memory(1, 0), 0);
    assert_eq!(calculate_network_totals(&vec![(1, 2), (3, 4)]), (4, 6));
    assert_eq!(calculate_network_totals(&vec![(u64::MAX, 0), (1, 0)]), (u64::MAX, 0));
}

#[test]
fn sparklines() {
    let line: String = generate_sparkline(&vec![0, 50, 100]).into_iter().collect();
    assert_eq!(line, "▁▄█");
    let flat: String = generate_sparkline(&vec![0, 0]).into_iter().collect();
    assert_eq!(flat, "▁▁");
    let capped: String = generate_sparkline_with_max(&vec![200, 50], 100).into_iter().collect();
    assert_eq!(capped, "█▄");
    assert!(generate_sparkline(&vec![]).is_empty());
}
