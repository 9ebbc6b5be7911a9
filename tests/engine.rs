use prek::batch::{combine_batches, BatchOutcome};
use prek::filter::{filename_decision, FileTagFilter, FilenameFilter};
use prek::hook::Hook;
use prek::keeper::{RestoreAction, WorkTreeKeeper};
use prek::node::Node;
use prek::partition::{limiter_size, partitions, plan_batches, shuffle, target_concurrency};
use prek::report::{
    calculate_columns, columns_for_widths, layout_running_line, layout_status_line, output_block,
    running_line, skipped_line, status_line, trim_output,
};
use prek::sequencer::{
    hook_outcome, is_skipped, report_shape, select_by_name, select_by_tags, skip_for_no_files,
    RunSequencer, Step,
};
use prek::store::{repo_name, Repo};

fn hook(id: &str) -> Hook {
    Hook {
        id: id.to_string(),
        alias: String::new(),
        name: id.to_string(),
        entry: "echo".to_string(),
        args: vec![],
        files: None,
        exclude: None,
        types: vec![],
        types_or: vec![],
        exclude_types: vec![],
        always_run: false,
        fail_fast: false,
        require_serial: false,
        pass_filenames: true,
        verbose: false,
        log_file: None,
    }
}

fn names(n: usize, len: usize) -> Vec<String> {
    (0..n).map(|i| format!("{:0width$}", i, width = len)).collect()
}

#[test]
fn filename_filter_composition() {
    let f = FilenameFilter::new(Some(r"\.py$"), Some("^tests/")).unwrap();
    assert!(f.filter("src/a.py"));
    assert!(!f.filter("tests/a.py"));
    assert!(!f.filter("src/a.txt"));
    let open = FilenameFilter::new(None, None).unwrap();
    assert!(open.filter("anything"));
    let only_exclude = FilenameFilter::new(None, Some("vendor")).unwrap();
    assert!(only_exclude.filter("src/main.rs"));
    assert!(!only_exclude.filter("third/vendor/x.rs"));
}

#[test]
fn filename_filter_unanchored() {
    let f = FilenameFilter::new(Some("json"), None).unwrap();
    assert!(f.filter("data/y.json"));
    assert!(!f.filter("x.txt"));
}

#[test]
fn filename_filter_bad_pattern() {
    assert!(FilenameFilter::new(Some("("), None).is_err());
    assert!(FilenameFilter::new(None, Some("[a")).is_err());
}

#[test]
fn filename_decision_table() {
    assert!(filename_decision(None, None));
    assert!(filename_decision(Some(true), Some(false)));
    assert!(!filename_decision(Some(false), None));
    assert!(!filename_decision(None, Some(true)));
    assert!(!filename_decision(Some(true), Some(true)));
}

#[test]
fn from_hook_uses_patterns() {
    let mut h = hook("h");
    h.files = Some("^src/".to_string());
    h.exclude = Some(r"\.md$".to_string());
    let f = FilenameFilter::from_hook(&h).unwrap();
    assert!(f.filter("src/lib.rs"));
    assert!(!f.filter("src/README.md"));
    assert!(!f.filter("lib.rs"));
}

#[test]
fn tag_filter_rules() {
    let all = vec!["text".to_string(), "json".to_string()];
    let any = vec!["json".to_string(), "yaml".to_string()];
    let none: Vec<String> = vec![];
    let excl = vec!["binary".to_string()];
    let f = FileTagFilter::new(&all, &none, &none);
    assert!(f.filter(&["text", "json"]));
    assert!(!f.filter(&["text"]));
    let f = FileTagFilter::new(&none, &any, &none);
    assert!(f.filter(&["yaml"]));
    assert!(!f.filter(&["toml"]));
    let f = FileTagFilter::new(&none, &none, &excl);
    assert!(f.filter(&["text"]));
    assert!(!f.filter(&["binary", "text"]));
    let f = FileTagFilter::new(&none, &none, &none);
    assert!(f.filter(&[]));
}

#[test]
fn types_json_forwards_only_json() {
    let mut h = hook("check-json");
    h.types = vec!["json".to_string()];
    let files = vec!["x.txt".to_string(), "y.json".to_string()];
    let filter = FilenameFilter::from_hook(&h).unwrap();
    let by_name = select_by_name(&filter, &files);
    assert_eq!(by_name, files);
    let tags = vec![Some(vec!["text"]), Some(vec!["text", "json"])];
    let tag_filter = FileTagFilter::from_hook(&h);
    let selected = select_by_tags(&tag_filter, by_name, &tags);
    assert_eq!(selected, vec!["y.json".to_string()]);
    assert!(!skip_for_no_files(&h, &selected));
    let batches = plan_batches(&h, selected, 4);
    assert_eq!(batches, vec![vec!["y.json".to_string()]]);
}

#[test]
fn types_json_without_json_files_is_skipped() {
    let mut h = hook("check-json");
    h.types = vec!["json".to_string()];
    let files = vec!["x.txt".to_string(), "z.md".to_string()];
    let tags = vec![Some(vec!["text"]), Some(vec!["text", "markdown"])];
    let tag_filter = FileTagFilter::from_hook(&h);
    let selected = select_by_tags(&tag_filter, files, &tags);
    assert!(selected.is_empty());
    assert!(skip_for_no_files(&h, &selected));
    let line = skipped_line(&h.name, 80, true);
    assert!(line.ends_with("(no files to check)Skipped"));
    assert_eq!(line.chars().count(), 79);
}

#[test]
fn unclassified_file_is_left_out() {
    let h = hook("any");
    let files = vec!["a".to_string(), "b".to_string()];
    let tags = vec![None, Some(vec!["text"])];
    let selected = select_by_tags(&FileTagFilter::from_hook(&h), files, &tags);
    assert_eq!(selected, vec!["b".to_string()]);
}

#[test]
fn always_run_is_not_skipped() {
    let mut h = hook("h");
    h.always_run = true;
    assert!(!skip_for_no_files(&h, &vec![]));
}

#[test]
fn skip_list_by_id_or_alias() {
    let mut h = hook("trailing-whitespace");
    h.alias = "tw".to_string();
    assert!(is_skipped(&h, &["tw".to_string()]));
    assert!(is_skipped(&h, &["x".to_string(), "trailing-whitespace".to_string()]));
    assert!(!is_skipped(&h, &["typos".to_string()]));
    assert!(!is_skipped(&h, &[]));
}

#[test]
fn partitions_empty_gives_one_empty_batch() {
    let h = hook("h");
    let r = partitions(&h, &[], 4);
    assert_eq!(r.len(), 1);
    assert!(r[0].is_empty());
}

#[test]
fn partitions_by_count() {
    let h = hook("h");
    let files = names(10, 2);
    let refs: Vec<&String> = files.iter().collect();
    let r = partitions(&h, &refs, 2);
    assert_eq!(r.len(), 2);
    assert_eq!(r[0].len(), 5);
    assert_eq!(r[1].len(), 5);
    let flat: Vec<String> = r.iter().flatten().map(|s| s.to_string()).collect();
    assert_eq!(flat, files);
    let r = partitions(&h, &refs, 1);
    assert_eq!(r.len(), 1);
    let r = partitions(&h, &refs, 8);
    let sizes: Vec<usize> = r.iter().map(|b| b.len()).collect();
    assert_eq!(sizes, vec![4, 4, 2]);
}

#[test]
fn partitions_by_length() {
    let h = hook("h");
    let files = names(10, 1000);
    let refs: Vec<&String> = files.iter().collect();
    let r = partitions(&h, &refs, 1);
    let sizes: Vec<usize> = r.iter().map(|b| b.len()).collect();
    assert_eq!(sizes, vec![4, 4, 2]);
    for b in &r {
        let len: usize = 4 + 1 + b.iter().map(|f| f.len() + 1).sum::<usize>();
        assert!(len <= 4096);
    }
}

#[test]
fn partitions_oversized_file_alone() {
    let h = hook("h");
    let files = vec!["a".to_string(), "b".repeat(5000), "c".to_string()];
    let refs: Vec<&String> = files.iter().collect();
    let r = partitions(&h, &refs, 1);
    let sizes: Vec<usize> = r.iter().map(|b| b.len()).collect();
    assert_eq!(sizes, vec![1, 1, 1]);
}

#[test]
fn shuffle_is_deterministic_permutation() {
    let unshuffled = names(20, 3);
    let mut a = unshuffled.clone();
    let mut b = unshuffled.clone();
    shuffle(&mut a);
    shuffle(&mut b);
    assert_eq!(a, b);
    assert_ne!(a, unshuffled);
    let mut sorted = a.clone();
    sorted.sort();
    assert_eq!(sorted, unshuffled);
}

#[test]
fn plan_is_deterministic() {
    let h = hook("h");
    let files = names(30, 4);
    let p1 = plan_batches(&h, files.clone(), 3);
    let p2 = plan_batches(&h, files.clone(), 3);
    assert_eq!(p1, p2);
    let mut flat: Vec<String> = p1.into_iter().flatten().collect();
    flat.sort();
    assert_eq!(flat, files);
}

#[test]
fn plan_without_filenames_runs_once() {
    let mut h = hook("h");
    h.pass_filenames = false;
    let p = plan_batches(&h, names(5, 2), 2);
    assert_eq!(p, vec![Vec::<String>::new()]);
}

#[test]
fn concurrency_choice() {
    assert_eq!(target_concurrency(true, false, Some(8)), 1);
    assert_eq!(target_concurrency(false, true, Some(8)), 1);
    assert_eq!(target_concurrency(false, false, Some(8)), 8);
    assert_eq!(target_concurrency(false, false, None), 1);
    assert_eq!(target_concurrency(false, false, Some(0)), 1);
}

#[test]
fn batches_combined_in_partition_order() {
    let done = vec![
        BatchOutcome { index: 2, status: 0, output: b"c".to_vec() },
        BatchOutcome { index: 0, status: 0, output: b"a".to_vec() },
        BatchOutcome { index: 1, status: 1, output: b"b".to_vec() },
    ];
    let (status, output) = combine_batches(&done);
    assert_ne!(status, 0);
    assert_eq!(status, 1);
    assert_eq!(output, b"abc".to_vec());
    let ok = vec![
        BatchOutcome { index: 1, status: 0, output: vec![] },
        BatchOutcome { index: 0, status: 0, output: b"x".to_vec() },
    ];
    assert_eq!(combine_batches(&ok), (0, b"x".to_vec()));
    assert_eq!(combine_batches(&vec![]), (0, vec![]));
}

#[test]
fn modifying_hook_fails_with_notice() {
    // whitespace fixer exits zero but rewrites a.txt; the json check changes nothing
    let before = b"".to_vec();
    let after = b"diff --git a/a.txt b/a.txt".to_vec();
    let fixer = hook_outcome(0, &before, &after);
    assert!(!fixer.success);
    assert!(fixer.files_modified);
    let shape = report_shape(fixer, 0, false, false);
    assert!(!shape.passed);
    assert!(shape.modified_notice);
    assert!(!shape.exit_code);
    let json = hook_outcome(0, &after, &after);
    assert!(json.success);
    assert!(!json.files_modified);
    let shape = report_shape(json, 0, false, false);
    assert!(shape.passed);
    assert!(!shape.details);
}

#[test]
fn failing_status_is_reported() {
    let o = hook_outcome(3, b"d", b"d");
    assert!(!o.success);
    let shape = report_shape(o, 3, false, false);
    assert!(shape.details && shape.exit_code && !shape.modified_notice && !shape.duration);
    let shape = report_shape(hook_outcome(0, b"", b""), 0, true, false);
    assert!(shape.passed && shape.details && shape.duration);
}

#[test]
fn fail_fast_stops_run() {
    let mut s = RunSequencer::new(2, false, vec![]);
    assert_eq!(s.next_step(), Step::Run(0));
    s.record(false, true);
    assert_eq!(s.next_step(), Step::Finish(false));
}

#[test]
fn run_goes_on_without_fail_fast() {
    let mut s = RunSequencer::new(3, false, vec![]);
    s.record(false, false);
    assert_eq!(s.next_step(), Step::Run(1));
    s.record(true, false);
    s.record(true, false);
    assert_eq!(s.next_step(), Step::Finish(false));
    let mut s = RunSequencer::new(2, true, vec![]);
    s.record(true, false);
    s.record(true, false);
    assert_eq!(s.next_step(), Step::Finish(true));
    let mut s = RunSequencer::new(2, true, vec![]);
    s.record(false, false);
    assert_eq!(s.next_step(), Step::Finish(false));
    assert_eq!(RunSequencer::new(0, false, vec![]).next_step(), Step::Finish(true));
}

#[test]
fn restore_happens_once() {
    let mut guard = WorkTreeKeeper::clean(
        vec!["new.txt".to_string()],
        Some("/tmp/patch".to_string()),
    );
    assert!(!guard.is_restored());
    let first = guard.restore();
    assert_eq!(first.len(), 2);
    assert!(matches!(&first[0], RestoreAction::ApplyReverse(p) if p == "/tmp/patch"));
    assert!(matches!(&first[1], RestoreAction::IntentToAdd(v) if v == &vec!["new.txt".to_string()]));
    assert!(guard.is_restored());
    assert!(guard.restore().is_empty());
}

#[test]
fn unstaged_edits_are_given_back() {
    let mut guard = WorkTreeKeeper::clean(vec![], Some("/tmp/unstaged.patch".to_string()));
    let steps = guard.restore();
    assert_eq!(steps.len(), 1);
    assert!(matches!(&steps[0], RestoreAction::ApplyReverse(p) if p == "/tmp/unstaged.patch"));
    let mut clean = WorkTreeKeeper::clean(vec![], None);
    assert!(clean.restore().is_empty());
}

#[test]
fn status_lines() {
    assert_eq!(status_line("abc", 20, "Skipped", ""), format!("abc{}Skipped", ".".repeat(9)));
    assert_eq!(
        skipped_line("hook", 80, true),
        format!("hook{}(no files to check)Skipped", ".".repeat(49))
    );
    assert_eq!(skipped_line("hook", 80, false), format!("hook{}Skipped", ".".repeat(68)));
    assert_eq!(running_line("hook", 80), format!("hook{}", ".".repeat(69)));
    assert_eq!(status_line("a-very-long-name", 5, "Skipped", ""), "a-very-long-nameSkipped");
}

#[test]
fn cjk_names_are_wide() {
    assert_eq!(running_line("你好", 20), format!("你好{}", ".".repeat(9)));
}

#[test]
fn columns() {
    assert_eq!(calculate_columns(&[]), 80);
    assert_eq!(calculate_columns(&[hook("short")]), 80);
    let mut long = hook("x");
    long.name = "n".repeat(60);
    assert_eq!(calculate_columns(&[hook("a"), long]), 90);
    let mut wide = hook("y");
    wide.name = "名".repeat(30);
    assert_eq!(calculate_columns(&[wide]), 90);
}

#[test]
fn repo_names() {
    assert_eq!(repo_name("https://github.com/a/b", &[]), "https://github.com/a/b");
    assert_eq!(
        repo_name("https://github.com/a/b", &["x".to_string(), "y==1".to_string()]),
        "https://github.com/a/b:x,y==1"
    );
}

#[test]
fn repo_from_path() {
    let mut second = hook("lint");
    second.name = "second".to_string();
    let repo = Repo::from_path(
        "https://github.com/a/b".to_string(),
        "v1".to_string(),
        "/cache/repo",
        vec![hook("lint"), hook("fmt"), second],
    );
    assert_eq!(repo.name(), "https://github.com/a/b");
    assert_eq!(repo.rev(), "v1");
    assert_eq!(repo.path(), "/cache/repo/.pre-commit-hooks.yaml");
    assert_eq!(repo.hooks().len(), 2);
    let mut ids: Vec<&str> = repo.hooks().iter().map(|h| h.id.as_str()).collect();
    ids.sort();
    assert_eq!(ids, vec!["fmt", "lint"]);
    let lint = repo.hooks().iter().find(|h| h.id == "lint").unwrap();
    assert_eq!(lint.name, "second");
    assert_eq!(repo.hook("lint").unwrap().name, "second");
    assert_eq!(repo.hook("fmt").unwrap().name, "fmt");
    assert!(repo.hook("none").is_none());
    assert_eq!(repo.display(), "https://github.com/a/b@v1");
}

#[test]
fn node_language() {
    let n = Node;
    assert_eq!(n.environment_dir(), Some("node_env"));
    assert_eq!(n.run(&hook("h"), &[]), (0, vec![]));
}

#[test]
fn output_trimmed_and_indented() {
    assert_eq!(trim_output(b"  \n\tabc def \r\n"), b"abc def".to_vec());
    assert_eq!(trim_output(b" \n "), Vec::<u8>::new());
    assert_eq!(trim_output(b""), Vec::<u8>::new());
    assert_eq!(output_block(b"\n a\nb\n\n"), Some("  a\n  b".to_string()));
    assert_eq!(output_block(b"   \n"), None);
}

#[test]
fn output_invalid_utf8_is_replaced() {
    assert_eq!(output_block(b"x\xffy"), Some("  x\u{fffd}y".to_string()));
}

#[test]
fn layout_with_given_width() {
    assert_eq!(
        layout_status_line("check json", 10, 80, "Skipped", "(no files to check)"),
        format!("check json{}(no files to check)Skipped", ".".repeat(43))
    );
    assert_eq!(layout_status_line("x", 50, 40, "Skipped", ""), "xSkipped");
    assert_eq!(layout_running_line("check json", 10, 80), format!("check json{}", ".".repeat(63)));
    assert_eq!(layout_running_line("名", 2, 12), format!("名{}", ".".repeat(3)));
}

#[test]
fn columns_from_widths() {
    assert_eq!(columns_for_widths(&[]), 80);
    assert_eq!(columns_for_widths(&[10, 50]), 80);
    assert_eq!(columns_for_widths(&[3, 51, 7]), 81);
    assert_eq!(columns_for_widths(&[usize::MAX]), usize::MAX);
}

#[test]
fn limiter_is_bounded_by_batches() {
    assert_eq!(limiter_size(8, 3), 3);
    assert_eq!(limiter_size(2, 3), 2);
    assert_eq!(limiter_size(1, 1), 1);
}

#[test]
fn sequencer_judges_by_diff() {
    // a whitespace fixer that rewrites a.txt, then a json check that passes
    let mut s = RunSequencer::new(2, false, b"".to_vec());
    assert_eq!(s.next_step(), Step::Run(0));
    let fixer = s.finish_hook(0, b"diff a.txt".to_vec(), false);
    assert!(!fixer.success && fixer.files_modified);
    assert_eq!(s.next_step(), Step::Run(1));
    let json = s.finish_hook(0, b"diff a.txt".to_vec(), false);
    assert!(json.success && !json.files_modified);
    assert_eq!(s.next_step(), Step::Finish(false));
}

#[test]
fn sequencer_fail_fast_hook_stops_always_run() {
    let mut s = RunSequencer::new(2, false, vec![]);
    let first = s.finish_hook(1, vec![], true);
    assert!(!first.success);
    assert_eq!(s.next_step(), Step::Finish(false));
}

#[test]
fn skipped_hook_keeps_diff() {
    let mut s = RunSequencer::new(2, false, b"d".to_vec());
    s.record(true, false);
    let o = s.finish_hook(0, b"d".to_vec(), false);
    assert!(o.success);
    assert_eq!(s.next_step(), Step::Finish(true));
}

#[test]
fn plan_empty_selection_runs_once() {
    let mut h = hook("h");
    h.always_run = true;
    assert_eq!(plan_batches(&h, vec![], 4), vec![Vec::<String>::new()]);
}
