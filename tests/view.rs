use rtop::model::{ProcessInfo, SortColumn};
use rtop::state::{App, Area, Preferences};

fn rec(pid: u32, parent: Option<u32>, name: &str, cpu: u32, mem: u64) -> ProcessInfo {
    ProcessInfo {
        pid,
        parent,
        name: name.to_string(),
        cpu_usage: cpu,
        memory: mem,
        user_id: Some(1000),
        status: "Running".to_string(),
    }
}

fn by_pid_ascending() -> App {
    let mut app = App::new(Preferences { update_interval_ms: 1000, sort_column: SortColumn::Pid, reverse_sort: false });
    app.table_area = Area { x: 0, y: 0, width: 80, height: 14 };
    app
}

fn shown_pids(app: &mut App) -> Vec<u32> {
    let n = app.flatten_processes().len();
    (0..n).map(|i| app.get_process_at_flat_index(i).unwrap().info.pid).collect()
}

#[test]
fn expand_scenario_builds_rows_in_preorder() {
    let mut app = by_pid_ascending();
    app.bootstrap_pids = vec![];
    let records = vec![
        rec(1, None, "root", 0, 0),
        rec(2, Some(1), "child_a", 0, 0),
        rec(3, Some(1), "child_b", 0, 0),
        rec(4, Some(2), "grandchild", 0, 0),
    ];
    app.build_process_tree(&records);
    assert_eq!(shown_pids(&mut app), vec![1]);
    app.selected = Some(0);
    app.toggle_expand();
    assert_eq!(shown_pids(&mut app), vec![1, 2, 3]);
    app.selected = Some(1);
    app.toggle_expand();
    assert_eq!(shown_pids(&mut app), vec![1, 2, 4, 3]);
    let depths: Vec<usize> = app.flatten_processes().iter().map(|r| r.depth).collect();
    assert_eq!(depths, vec![0, 1, 2, 1]);
}

#[test]
fn expand_flags_survive_a_rebuild() {
    let mut app = by_pid_ascending();
    app.bootstrap_pids = vec![];
    let records = vec![rec(1, None, "root", 0, 0), rec(2, Some(1), "child", 0, 0)];
    app.build_process_tree(&records);
    app.selected = Some(0);
    app.toggle_expand();
    assert_eq!(app.expanded_pids.get(&1), Some(&true));
    app.build_process_tree(&records);
    assert_eq!(shown_pids(&mut app), vec![1, 2]);
    app.build_process_tree(&vec![rec(2, None, "child", 0, 0)]);
    assert_eq!(app.expanded_pids.get(&1), None);
}

#[test]
fn cpu_threshold_keeps_exactly_the_busy_processes() {
    let mut app = by_pid_ascending();
    let records = vec![
        rec(101, None, "a", 1000, 0),
        rec(102, None, "b", 6000, 0),
        rec(103, None, "c", 500, 0),
        rec(104, None, "d", 7000, 0),
    ];
    app.filter.cpu_threshold = Some(5000);
    app.build_process_tree(&records);
    assert_eq!(shown_pids(&mut app), vec![102, 104]);
}

#[test]
fn filtered_view_keeps_ancestors_of_matches() {
    let mut app = by_pid_ascending();
    let records = vec![
        rec(10, None, "shell", 0, 0),
        rec(11, Some(10), "editor", 0, 0),
        rec(12, Some(11), "compiler", 9000, 0),
        rec(13, None, "idle", 0, 0),
    ];
    app.build_process_tree(&records);
    app.expanded_pids.insert(10, true);
    app.expanded_pids.insert(11, true);
    app.build_process_tree(&records);
    app.filter.cpu_threshold = Some(5000);
    app.cached_flat_processes = None;
    assert_eq!(shown_pids(&mut app), vec![10, 11, 12]);
}

#[test]
fn terminated_last_row_keeps_selection_in_bounds() {
    let mut app = by_pid_ascending();
    let records = vec![rec(20, None, "a", 0, 0), rec(21, None, "b", 0, 0), rec(22, None, "c", 0, 0)];
    app.build_process_tree(&records);
    app.go_to_bottom();
    assert_eq!(app.selected, Some(2));
    let outcome = app.kill_selected();
    assert_eq!(outcome.action.unwrap().pid, 22);
    assert!(outcome.refresh);
    let after = vec![rec(20, None, "a", 0, 0), rec(21, None, "b", 0, 0)];
    app.force_refresh(&after);
    assert_eq!(app.selected, Some(1));
    app.force_refresh(&vec![]);
    assert_eq!(app.selected, None);
}

#[test]
fn reading_the_view_twice_gives_the_same_rows() {
    let mut app = by_pid_ascending();
    app.build_process_tree(&vec![rec(30, None, "x", 0, 0), rec(31, None, "y", 0, 0)]);
    let first: Vec<Vec<usize>> = app.flatten_processes().iter().map(|r| r.path.clone()).collect();
    let second: Vec<Vec<usize>> = app.flatten_processes().iter().map(|r| r.path.clone()).collect();
    assert_eq!(first, second);
    assert_eq!(first, vec![vec![0], vec![1]]);
}

#[test]
fn toggling_a_childless_row_changes_nothing() {
    let mut app = by_pid_ascending();
    app.build_process_tree(&vec![rec(40, None, "lonely", 0, 0)]);
    app.selected = Some(0);
    app.toggle_expand();
    assert!(app.cached_flat_processes.is_some());
    assert!(app.expanded_pids.is_empty());
    assert!(!app.processes[0].expanded);
}

#[test]
fn bootstrap_processes_are_hidden_and_their_children_are_roots() {
    let mut app = by_pid_ascending();
    let records = vec![
        rec(1, None, "init", 0, 0),
        rec(2, None, "kthreadd", 0, 0),
        rec(50, Some(1), "daemon", 0, 0),
        rec(51, Some(2), "worker", 0, 0),
        rec(52, Some(999), "orphan", 0, 0),
    ];
    app.build_process_tree(&records);
    assert_eq!(shown_pids(&mut app), vec![50, 51, 52]);
}

#[test]
fn looping_parents_become_roots() {
    let mut app = by_pid_ascending();
    let records = vec![rec(60, Some(61), "a", 0, 0), rec(61, Some(60), "b", 0, 0)];
    app.build_process_tree(&records);
    assert_eq!(app.processes.len(), 1);
    assert_eq!(app.processes[0].children.len(), 1);
}

#[test]
fn sorting_by_name_reverses_with_direction() {
    let records = vec![rec(70, None, "beta", 0, 0), rec(71, None, "alpha", 0, 0), rec(72, None, "gamma", 0, 0)];
    let mut app = by_pid_ascending();
    app.set_sort(SortColumn::Name, false, &records);
    let up = shown_pids(&mut app);
    assert_eq!(up, vec![71, 70, 72]);
    app.set_sort(SortColumn::Name, false, &records);
    assert_eq!(shown_pids(&mut app), up);
    app.set_sort(SortColumn::Name, true, &records);
    let mut down = shown_pids(&mut app);
    down.reverse();
    assert_eq!(down, up);
}

#[test]
fn ties_are_broken_by_pid() {
    let records = vec![rec(82, None, "p", 500, 0), rec(80, None, "q", 500, 0), rec(81, None, "r", 900, 0)];
    let mut app = by_pid_ascending();
    app.set_sort(SortColumn::Cpu, true, &records);
    assert_eq!(shown_pids(&mut app), vec![81, 80, 82]);
}

#[test]
fn selection_moves_and_clamps() {
    let mut app = by_pid_ascending();
    let records: Vec<ProcessInfo> = (0..30).map(|i| rec(100 + i, None, "p", 0, 0)).collect();
    app.build_process_tree(&records);
    assert_eq!(app.selected, Some(0));
    app.select_prev();
    assert_eq!(app.selected, Some(0));
    app.select_next();
    assert_eq!(app.selected, Some(1));
    app.page_down();
    assert_eq!(app.selected, Some(11));
    assert_eq!(app.viewport_offset, 2);
    app.page_up();
    assert_eq!(app.selected, Some(1));
    app.go_to_bottom();
    assert_eq!(app.selected, Some(29));
    assert_eq!(app.viewport_offset, 20);
    app.select_next();
    assert_eq!(app.selected, Some(29));
    app.go_to_top();
    assert_eq!(app.selected, Some(0));
    assert_eq!(app.viewport_offset, 0);
}

#[test]
fn ensure_visible_scrolls_just_enough() {
    let mut app = by_pid_ascending();
    app.ensure_visible(25);
    assert_eq!(app.viewport_offset, 16);
    app.ensure_visible(20);
    assert_eq!(app.viewport_offset, 16);
    app.ensure_visible(3);
    assert_eq!(app.viewport_offset, 3);
}

#[test]
fn empty_list_has_no_selection() {
    let mut app = by_pid_ascending();
    app.build_process_tree(&vec![]);
    assert_eq!(app.selected, None);
    app.select_next();
    assert_eq!(app.selected, None);
    app.select_first_matching();
    assert_eq!(app.selected, None);
}

#[test]
fn refresh_keeps_sixty_samples() {
    let mut app = by_pid_ascending();
    for i in 0..61u64 {
        let sample = rtop::refresh::Sample {
            cpu_usage: vec![i as u32, 2 * i as u32],
            used_memory: i,
            network: (i, i + 1),
            processes: vec![rec(200, None, "p", 0, 0)],
        };
        app.refresh(&sample);
    }
    assert_eq!(app.memory_history.len(), 60);
    assert_eq!(app.memory_history[0], 1);
    assert_eq!(app.memory_history[59], 60);
    assert_eq!(app.network_history[59], (60, 61));
    assert_eq!(app.cpu_history[1][59], 120);
    assert_eq!(app.cpu_history.len(), 60);
}

#[test]
fn bootstrap_records_are_never_children() {
    let mut app = by_pid_ascending();
    let records = vec![rec(90, None, "shell", 0, 0), rec(1, Some(90), "init", 0, 0), rec(91, Some(1), "daemon", 0, 0)];
    app.build_process_tree(&records);
    assert_eq!(app.processes.len(), 2);
    assert!(app.processes.iter().all(|n| n.info.pid != 1 && n.children.iter().all(|c| c.info.pid != 1)));
}

#[test]
fn children_keep_snapshot_order_before_sorting() {
    let mut app = by_pid_ascending();
    let records = vec![rec(95, None, "p", 0, 0), rec(97, Some(95), "b", 0, 0), rec(96, Some(95), "a", 0, 0)];
    app.build_process_tree(&records);
    let kids: Vec<u32> = app.processes[0].children.iter().map(|c| c.info.pid).collect();
    assert_eq!(kids, vec![96, 97]);
}

#[test]
fn viewport_follows_clamped_selection_after_rebuild() {
    let mut app = by_pid_ascending();
    let many: Vec<ProcessInfo> = (0..40).map(|i| rec(300 + i, None, "p", 0, 0)).collect();
    app.build_process_tree(&many);
    app.go_to_bottom();
    assert_eq!(app.viewport_offset, 30);
    let few: Vec<ProcessInfo> = (0..5).map(|i| rec(300 + i, None, "p", 0, 0)).collect();
    app.force_refresh(&few);
    assert_eq!(app.selected, Some(4));
    assert_eq!(app.viewport_offset, 4);
}

#[test]
fn records_sit_under_their_parents_and_loops_become_one_root() {
    let mut app = by_pid_ascending();
    let records = vec![
        rec(400, Some(401), "loop_a", 0, 0),
        rec(401, Some(400), "loop_b", 0, 0),
        rec(402, Some(401), "under_loop", 0, 0),
        rec(410, None, "top", 0, 0),
        rec(411, Some(410), "mid", 0, 0),
        rec(412, Some(411), "leaf", 0, 0),
    ];
    app.build_process_tree(&records);
    let roots: Vec<u32> = app.processes.iter().map(|n| n.info.pid).collect();
    assert_eq!(roots, vec![400, 410]);
    let top = &app.processes[1];
    assert_eq!(top.children.len(), 1);
    assert_eq!(top.children[0].info.pid, 411);
    assert_eq!(top.children[0].children[0].info.pid, 412);
    let looped = &app.processes[0];
    assert_eq!(looped.children[0].info.pid, 401);
    assert_eq!(looped.children[0].children[0].info.pid, 402);
}

#[test]
fn denied_request_is_recorded_without_rebuild() {
    let mut app = by_pid_ascending();
    app.build_process_tree(&vec![rec(500, None, "a", 0, 0)]);
    let outcome = app.signal_selected(rtop::keys::ProcessAction::Stop);
    let after = app.request_done(outcome, false, "denied".to_string());
    assert!(!after.refresh);
    assert!(after.action.is_none());
    assert_eq!(app.errors, vec!["denied".to_string()]);
    assert_eq!(app.selected, Some(0));
}
