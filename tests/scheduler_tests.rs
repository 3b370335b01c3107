use task_scheduler::agent::{Agent, AgentManager};
use task_scheduler::category::{categorize_file, categorize_lowered, contains, ends_with};
use task_scheduler::category::reads_as_text;
use task_scheduler::endpoints::{drive_items_endpoint, file_content_url, graph_url, search_endpoint};
use task_scheduler::keywords::{extract_keywords, rank_words};
use task_scheduler::sessions::newest_first;
use task_scheduler::summary::{analyze_binary_file, analyze_text_content, generate_summary};
use task_scheduler::text_stats::{decimal_text, line_and_word_counts};
use task_scheduler::prompt::{fill_template, render_prompt};
use task_scheduler::schedule::{compute_next_run, ScheduleType};
use task_scheduler::scheduler::TaskScheduler;
use task_scheduler::task::{Task, TaskError, TaskResult};

// 2024-01-01T00:00:00Z, a Monday.
const JAN_1_2024: i64 = 1704067200;
const HOUR: i64 = 3600;
const DAY: i64 = 86400;

fn task(id: &str, schedule: ScheduleType, created_at: i64) -> Task {
    Task::new(
        id.to_string(),
        format!("task {}", id),
        "general".to_string(),
        "Summarise {date}".to_string(),
        schedule,
        created_at,
    )
}

fn result(n: usize) -> TaskResult {
    TaskResult {
        task_id: format!("t{}", n),
        task_name: "n".to_string(),
        agent_name: "general".to_string(),
        executed_at: n as i64,
        prompt: String::new(),
        response: String::new(),
        success: true,
        error: None,
    }
}

#[test]
fn daily_after_slot_moves_to_next_day() {
    let now = JAN_1_2024 + 10 * HOUR;
    let next = compute_next_run(&ScheduleType::Daily { at_hour: 9, at_minute: 0 }, now);
    assert_eq!(next, JAN_1_2024 + DAY + 9 * HOUR);
}

#[test]
fn daily_before_slot_stays_today() {
    let now = JAN_1_2024 + 8 * HOUR;
    let next = compute_next_run(&ScheduleType::Daily { at_hour: 9, at_minute: 30 }, now);
    assert_eq!(next, JAN_1_2024 + 9 * HOUR + 30 * 60);
}

#[test]
fn daily_exact_slot_is_deferred() {
    let now = JAN_1_2024 + 9 * HOUR;
    let next = compute_next_run(&ScheduleType::Daily { at_hour: 9, at_minute: 0 }, now);
    assert_eq!(next, JAN_1_2024 + DAY + 9 * HOUR);
}

#[test]
fn weekly_same_week() {
    let now = JAN_1_2024 + 7 * HOUR;
    let next = compute_next_run(
        &ScheduleType::Weekly { day: 3, at_hour: 8, at_minute: 30 },
        now,
    );
    assert_eq!(next, JAN_1_2024 + 2 * DAY + 8 * HOUR + 30 * 60);
}

#[test]
fn weekly_earlier_weekday_wraps() {
    // Monday 07:00, target Sunday 08:00: the coming Sunday, 2024-01-07.
    let now = JAN_1_2024 + 7 * HOUR;
    let next = compute_next_run(&ScheduleType::Weekly { day: 0, at_hour: 8, at_minute: 0 }, now);
    assert_eq!(next, JAN_1_2024 + 6 * DAY + 8 * HOUR);
}

#[test]
fn weekly_same_day_passed_slot_moves_a_week() {
    let now = JAN_1_2024 + 9 * HOUR;
    let next = compute_next_run(&ScheduleType::Weekly { day: 1, at_hour: 8, at_minute: 0 }, now);
    assert_eq!(next, JAN_1_2024 + 7 * DAY + 8 * HOUR);
}

#[test]
fn hourly_slots() {
    let now = JAN_1_2024 + 10 * HOUR + 15 * 60 + 30;
    let next = compute_next_run(&ScheduleType::Hourly { at_minute: 15 }, now);
    assert_eq!(next, JAN_1_2024 + 11 * HOUR + 15 * 60);
    let next = compute_next_run(&ScheduleType::Hourly { at_minute: 45 }, now);
    assert_eq!(next, JAN_1_2024 + 10 * HOUR + 45 * 60);
}

#[test]
fn interval_adds_minutes() {
    let next = compute_next_run(&ScheduleType::Interval { minutes: 5 }, JAN_1_2024);
    assert_eq!(next, JAN_1_2024 + 300);
}

#[test]
fn invalid_schedules_are_rejected() {
    let mut s = TaskScheduler::new();
    let bad = [
        ScheduleType::Interval { minutes: 0 },
        ScheduleType::Hourly { at_minute: 60 },
        ScheduleType::Daily { at_hour: 24, at_minute: 0 },
        ScheduleType::Weekly { day: 7, at_hour: 0, at_minute: 0 },
    ];
    for (i, policy) in bad.iter().enumerate() {
        let r = s.add_task(task(&format!("b{}", i), *policy, JAN_1_2024), JAN_1_2024);
        assert_eq!(r.unwrap_err(), TaskError::Validation);
    }
    assert!(s.get_tasks().is_empty());
}

#[test]
fn duplicate_id_is_rejected() {
    let mut s = TaskScheduler::new();
    let policy = ScheduleType::Interval { minutes: 5 };
    assert!(s.add_task(task("a", policy, JAN_1_2024), JAN_1_2024).is_ok());
    let r = s.add_task(task("a", policy, JAN_1_2024), JAN_1_2024);
    assert_eq!(r.unwrap_err(), TaskError::DuplicateId);
    assert_eq!(s.get_tasks().len(), 1);
}

#[test]
fn add_arms_the_task() {
    let mut s = TaskScheduler::new();
    let t = s
        .add_task(task("a", ScheduleType::Daily { at_hour: 9, at_minute: 0 }, JAN_1_2024), JAN_1_2024)
        .unwrap();
    assert!(t.enabled);
    assert_eq!(t.next_run, Some(JAN_1_2024 + 9 * HOUR));
    assert_eq!(t.created_at, JAN_1_2024);
    assert_eq!(t.run_count, 0);
}

#[test]
fn toggle_disable_then_enable() {
    let mut s = TaskScheduler::new();
    s.add_task(task("a", ScheduleType::Hourly { at_minute: 0 }, JAN_1_2024), JAN_1_2024)
        .unwrap();
    let off = s.toggle_task("a", false, JAN_1_2024 + 10).unwrap();
    assert!(!off.enabled);
    assert_eq!(off.next_run, None);
    let later = JAN_1_2024 + 5 * HOUR;
    let on = s.toggle_task("a", true, later).unwrap();
    assert!(on.enabled);
    assert_eq!(on.next_run, Some(later + HOUR));
    assert!(on.next_run.unwrap() > later);
}

#[test]
fn disabled_task_is_never_due() {
    let mut s = TaskScheduler::new();
    s.add_task(task("a", ScheduleType::Interval { minutes: 1 }, JAN_1_2024), JAN_1_2024)
        .unwrap();
    s.toggle_task("a", false, JAN_1_2024).unwrap();
    assert!(s.pull_due_tasks(JAN_1_2024 + DAY).is_empty());
}

#[test]
fn toggle_unknown_id_is_not_found() {
    let mut s = TaskScheduler::new();
    assert_eq!(s.toggle_task("x", true, JAN_1_2024).unwrap_err(), TaskError::NotFound);
}

#[test]
fn delete_removes_and_reports_unknown() {
    let mut s = TaskScheduler::new();
    s.add_task(task("a", ScheduleType::Interval { minutes: 5 }, JAN_1_2024), JAN_1_2024)
        .unwrap();
    s.add_task(task("b", ScheduleType::Interval { minutes: 5 }, JAN_1_2024), JAN_1_2024)
        .unwrap();
    assert!(s.delete_task("a").is_ok());
    let left = s.get_tasks();
    assert_eq!(left.len(), 1);
    assert_eq!(left[0].id, "b");
    assert_eq!(s.delete_task("a").unwrap_err(), TaskError::NotFound);
    assert_eq!(s.get_tasks().len(), 1);
}

#[test]
fn interval_end_to_end() {
    let mut s = TaskScheduler::new();
    let t0 = JAN_1_2024;
    s.add_task(task("a", ScheduleType::Interval { minutes: 5 }, t0), t0).unwrap();
    assert!(s.pull_due_tasks(t0 + 299).is_empty());
    let due = s.pull_due_tasks(t0 + 300);
    assert_eq!(due.len(), 1);
    assert_eq!(due[0].id, "a");
    assert_eq!(due[0].last_run, Some(t0 + 300));
    assert_eq!(due[0].run_count, 1);
    assert_eq!(due[0].next_run, Some(t0 + 600));
}

#[test]
fn second_pull_at_same_instant_finds_nothing() {
    let mut s = TaskScheduler::new();
    s.add_task(task("a", ScheduleType::Interval { minutes: 5 }, JAN_1_2024), JAN_1_2024)
        .unwrap();
    s.add_task(task("b", ScheduleType::Hourly { at_minute: 5 }, JAN_1_2024), JAN_1_2024)
        .unwrap();
    let now = JAN_1_2024 + 300;
    assert_eq!(s.pull_due_tasks(now).len(), 2);
    assert!(s.pull_due_tasks(now).is_empty());
}

#[test]
fn clock_in_whole_periods_fires_once_each() {
    let mut s = TaskScheduler::new();
    s.add_task(task("a", ScheduleType::Interval { minutes: 5 }, JAN_1_2024), JAN_1_2024)
        .unwrap();
    let mut fired = 0;
    for k in 1..=12i64 {
        let now = JAN_1_2024 + 300 * k;
        fired += s.pull_due_tasks(now).len();
        fired += s.pull_due_tasks(now).len();
        assert_eq!(fired as i64, k);
    }
    assert_eq!(s.get_tasks()[0].run_count, 12);
}

#[test]
fn log_keeps_latest_hundred() {
    let mut s = TaskScheduler::new();
    for n in 0..101 {
        s.add_result(result(n));
    }
    let all = s.get_results(Some(1000));
    assert_eq!(all.len(), 100);
    // Newest first: record 100 down to record 1; record 0 left.
    for (i, r) in all.iter().enumerate() {
        assert_eq!(r.executed_at, (100 - i) as i64);
    }
}

#[test]
fn query_limits_and_default() {
    let mut s = TaskScheduler::new();
    for n in 0..70 {
        s.add_result(result(n));
    }
    let three = s.get_results(Some(3));
    assert_eq!(three.len(), 3);
    assert_eq!(three[0].executed_at, 69);
    assert_eq!(three[2].executed_at, 67);
    assert_eq!(s.get_results(None).len(), 50);
    assert_eq!(s.get_results(Some(0)).len(), 0);
    assert_eq!(s.get_results(Some(500)).len(), 70);
}

#[test]
fn query_on_empty_log() {
    let s = TaskScheduler::new();
    assert!(s.get_results(None).is_empty());
}

#[test]
fn execution_outcomes_are_recorded() {
    let mut s = TaskScheduler::new();
    let t = task("a", ScheduleType::Interval { minutes: 5 }, JAN_1_2024);
    s.record_execution(&t, JAN_1_2024, "p".to_string(), Ok("done".to_string()));
    s.record_execution(&t, JAN_1_2024 + 1, "q".to_string(), Err("offline".to_string()));
    let r = s.get_results(None);
    assert_eq!(r.len(), 2);
    assert!(!r[0].success);
    assert_eq!(r[0].response, "");
    assert_eq!(r[0].error.as_deref(), Some("offline"));
    assert_eq!(r[0].prompt, "q");
    assert!(r[1].success);
    assert_eq!(r[1].response, "done");
    assert_eq!(r[1].error, None);
    assert_eq!(r[1].task_id, "a");
    assert_eq!(r[1].agent_name, "general");
}

#[test]
fn prompt_placeholders_are_filled() {
    let now = JAN_1_2024 + 10 * HOUR + 5 * 60 + 7;
    let text = render_prompt("Report {date} at {time} ({datetime}) {other}", now);
    assert_eq!(text, "Report 2024-01-01 at 10:05:07 (2024-01-01 10:05:07) {other}");
}

#[test]
fn fill_template_replaces_every_occurrence() {
    let text = fill_template("{date}/{date} {time}{datetime}", "D", "T", "DT");
    assert_eq!(text, "D/D TDT");
    assert_eq!(fill_template("", "D", "T", "DT"), "");
}

#[test]
fn restore_checks_records() {
    let mut a = task("a", ScheduleType::Interval { minutes: 5 }, JAN_1_2024);
    a.next_run = Some(JAN_1_2024 + 300);
    let mut b = task("b", ScheduleType::Daily { at_hour: 1, at_minute: 2 }, JAN_1_2024);
    b.enabled = false;
    let s = TaskScheduler::from_tasks(vec![a.clone(), b.clone()]).unwrap();
    assert_eq!(s.get_tasks().len(), 2);
    assert_eq!(
        TaskScheduler::from_tasks(vec![a.clone(), a.clone()]).err(),
        Some(TaskError::DuplicateId)
    );
    let mut c = b.clone();
    c.next_run = Some(0);
    assert_eq!(TaskScheduler::from_tasks(vec![c]).err(), Some(TaskError::Validation));
}

fn agent(id: &str, model: &str) -> Agent {
    Agent {
        id: id.to_string(),
        name: id.to_string(),
        role: id.to_string(),
        description: String::new(),
        capabilities: vec![],
        model: model.to_string(),
    }
}

#[test]
fn default_agents() {
    let m = AgentManager::new();
    assert_eq!(m.list_agents().len(), 3);
    assert_eq!(m.get_agent("coder").unwrap().model, "codellama");
    assert_eq!(m.get_agent("general").unwrap().model, "llama3.2");
    assert!(m.get_agent("nobody").is_none());
}

#[test]
fn agent_add_update_remove() {
    let mut m = AgentManager::new();
    m.add_agent(agent("writer", "m1"));
    assert_eq!(m.list_agents().len(), 4);
    m.add_agent(agent("writer", "m2"));
    assert_eq!(m.list_agents().len(), 4);
    assert_eq!(m.get_agent("writer").unwrap().model, "m2");
    assert!(m.update_agent(agent("writer", "m3")));
    assert_eq!(m.get_agent("writer").unwrap().model, "m3");
    assert!(!m.update_agent(agent("ghost", "m")));
    assert!(m.get_agent("ghost").is_none());
    assert!(m.remove_agent("writer"));
    assert!(!m.remove_agent("writer"));
    assert_eq!(m.list_agents().len(), 3);
}

#[test]
fn categories_by_mime_and_name() {
    assert_eq!(categorize_file("photo.JPG", "application/octet-stream"), "Image");
    assert_eq!(categorize_file("a.bin", "image/png"), "Image");
    assert_eq!(categorize_file("clip.MP4", "unknown"), "Video");
    assert_eq!(categorize_file("paper.Pdf", "unknown"), "PDF Document");
    assert_eq!(categorize_file("x", "application/msword"), "Word Document");
    assert_eq!(categorize_file("notes.DOCX", "unknown"), "Word Document");
    assert_eq!(categorize_file("data.bin", "unknown"), "Binary File");
    assert_eq!(categorize_lowered("photo.JPG", "unknown"), "Binary File");
    assert!(contains("application/pdf", "pdf"));
    assert!(contains("abc", ""));
    assert!(!contains("ab", "abc"));
    assert!(ends_with("a.png", ".png"));
    assert!(!ends_with("png", ".png"));
}

fn strings(v: &[&str]) -> Vec<String> {
    v.iter().map(|s| s.to_string()).collect()
}

#[test]
fn rank_words_by_frequency() {
    let words = strings(&["beta", "alpha", "beta", "the", "the", "the", "gamma", "beta", "alpha"]);
    assert_eq!(rank_words(&words, 2), strings(&["beta", "alpha"]));
    assert_eq!(rank_words(&words, 10), strings(&["beta", "alpha", "gamma"]));
    assert!(rank_words(&words, 0).is_empty());
    assert!(rank_words(&Vec::new(), 5).is_empty());
}

#[test]
fn keywords_of_text() {
    let text = "Rust rust RUST verify verify proofs. This that with from have cat dog";
    let k = extract_keywords(text, 10);
    assert_eq!(k, strings(&["rust", "verify", "proofs"]));
    assert_eq!(extract_keywords(text, 1), strings(&["rust"]));
}

#[test]
fn graph_addresses() {
    assert_eq!(graph_url("/me"), "https://graph.microsoft.com/v1.0/me");
    assert_eq!(graph_url("https://example.com/next"), "https://example.com/next");
    assert_eq!(drive_items_endpoint(Some("42")), "/me/drive/items/42/children");
    assert_eq!(drive_items_endpoint(None), "/me/drive/root/children");
    assert_eq!(search_endpoint("plan"), "/me/drive/root/search(q='plan')");
    assert_eq!(
        file_content_url("7"),
        "https://graph.microsoft.com/v1.0/me/drive/items/7/content"
    );
}

#[test]
fn text_files_by_type_and_size() {
    assert!(reads_as_text(Some("text/plain"), 10));
    assert!(reads_as_text(Some("application/json"), 4_999_999));
    assert!(!reads_as_text(Some("application/json"), 5_000_000));
    assert!(!reads_as_text(Some("image/png"), 10));
    assert!(!reads_as_text(None, 10));
}

#[test]
fn chat_model_choice() {
    let m = AgentManager::new();
    assert_eq!(m.chat_model("coder", None), Some("codellama".to_string()));
    assert_eq!(m.chat_model("coder", Some("x".to_string())), Some("x".to_string()));
    assert_eq!(m.chat_model("nobody", Some("x".to_string())), Some("x".to_string()));
    assert_eq!(m.chat_model("nobody", None), None);
}

#[test]
fn agents_from_list_keep_last_of_each_id() {
    let m = AgentManager::from_agents(vec![agent("a", "m1"), agent("b", "m2"), agent("a", "m3")]);
    assert_eq!(m.list_agents().len(), 2);
    assert_eq!(m.get_agent("a").unwrap().model, "m3");
    assert_eq!(m.get_agent("b").unwrap().model, "m2");
    assert!(m.get_agent("general").is_none());
}

#[test]
fn decimal_numerals() {
    assert_eq!(decimal_text(0), "0");
    assert_eq!(decimal_text(7), "7");
    assert_eq!(decimal_text(1050), "1050");
    assert_eq!(decimal_text(u128::MAX), u128::MAX.to_string());
}

#[test]
fn lines_and_words() {
    assert_eq!(line_and_word_counts(""), (0, 0));
    assert_eq!(line_and_word_counts("one two\nthree\n"), (2, 3));
    assert_eq!(line_and_word_counts("a\n\nb"), (3, 2));
    assert_eq!(line_and_word_counts("  spaced\tout \u{3000}words  "), (1, 3));
    assert_eq!(line_and_word_counts("\n"), (1, 0));
}

#[test]
fn text_summary_layout() {
    let s = generate_summary("a.txt", "1.00 KB", 2, 3, &strings(&["alpha", "beta"]));
    assert_eq!(
        s,
        "📄 File: a.txt\n📦 Size: 1.00 KB\n📊 Statistics:\n  • 2 lines\n  • 3 words\n  • 100 characters\n\n🔑 Key Terms:\n  1. alpha\n  2. beta\n\n💡 This document is relatively short and concise."
    );
    let many = strings(&["a1", "a2", "a3", "a4", "a5", "a6"]);
    let s = generate_summary("b", "0 B", 0, 150, &many);
    assert!(s.contains("  5. a5\n"));
    assert!(!s.contains("a6"));
    assert!(s.ends_with("contains moderate content suitable for quick review."));
    let s = generate_summary("c", "0 B", 0, 1000, &Vec::new());
    assert!(!s.contains("Key Terms"));
    assert!(s.ends_with("is substantial and may require focused reading time."));
}

#[test]
fn text_analysis() {
    let a = analyze_text_content("n.txt", 30, "30 B", "Verus proves Verus code\nsecond line");
    assert_eq!(a.file_name, "n.txt");
    assert_eq!(a.file_size, 30);
    assert_eq!(a.line_count, 2);
    assert_eq!(a.word_count, 6);
    assert_eq!(a.char_count, 35);
    assert_eq!(a.top_keywords[0], "verus");
    assert_eq!(a.top_keywords.len(), 5);
    assert!(a.summary.starts_with("📄 File: n.txt\n📦 Size: 30 B\n"));
}

#[test]
fn binary_analysis() {
    let a = analyze_binary_file("pic.PNG", 2048, "2.00 KB", None);
    assert_eq!(
        a.summary,
        "📄 File: pic.PNG\n📦 Size: 2.00 KB\n📋 Type: unknown\n🏷️ Category: Image\n\n💡 This is a image file."
    );
    assert_eq!(a.line_count, 0);
    assert!(a.top_keywords.is_empty());
    let b = analyze_binary_file("x", 1, "1.00 B", Some("application/pdf"));
    assert!(b.summary.contains("Category: PDF Document"));
    assert!(b.summary.ends_with("This is a pdf document file."));
}

#[test]
fn sessions_newest_first() {
    let order = newest_first(&vec![10, 30, 20, 30, -5]);
    assert_eq!(order.len(), 5);
    let keys = [10, 30, 20, 30, -5];
    for w in order.windows(2) {
        assert!(keys[w[0]] >= keys[w[1]]);
    }
    let mut seen = order.clone();
    seen.sort();
    assert_eq!(seen, vec![0, 1, 2, 3, 4]);
    assert_eq!(order[2], 2);
    assert!(newest_first(&Vec::new()).is_empty());
}
