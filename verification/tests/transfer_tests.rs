use prompt_vault::evaluator::{
    calculate_due_time, check_due_tasks, is_task_due, update_last_notified_if_due, TaskMetadata,
};
use prompt_vault::json::{JsonObj, JsonVal};
use prompt_vault::scanner::PromptData;
use prompt_vault::transfer::{
    export_prompts, export_record, import_prompts, relativize_category, ImportAction,
};

fn get_str(m: &JsonObj, k: &str) -> String {
    match m.get(k) {
        Some(JsonVal::Str(s)) => s.clone(),
        _ => panic!("expected string under key"),
    }
}

fn doc(id: &str, title: &str, path: &str, body: &str) -> PromptData {
    let mut m = JsonObj::new();
    m.set("id", JsonVal::Str(String::from(id)));
    m.set("title", JsonVal::Str(String::from(title)));
    m.set("type", JsonVal::Str(String::from("NOTE")));
    m.set("author", JsonVal::Str(String::from("Someone")));
    m.set("version", JsonVal::Str(String::from("2.0.0")));
    m.set("is_favorite", JsonVal::Bool(true));
    m.set("category_path", JsonVal::Str(String::from("/root/Cat")));
    PromptData { meta: m, content: String::from(body), path: String::from(path) }
}

#[test]
fn relativize_strips_root() {
    assert_eq!(relativize_category("/root/Cat/Sub", "/root"), "Cat/Sub");
    assert_eq!(relativize_category("C:\\root\\Cat", "C:\\root"), "Cat");
    assert_eq!(relativize_category("/elsewhere/Cat", "/root"), "/elsewhere/Cat");
}

#[test]
fn export_record_fields_and_defaults() {
    let d = doc("a", "Alpha", "/root/Cat/alpha", "body!");
    let rec = export_record(&d, true, true, "/root");
    assert_eq!(get_str(&rec, "title"), "Alpha");
    assert_eq!(get_str(&rec, "type"), "NOTE");
    assert_eq!(get_str(&rec, "author"), "Someone");
    assert_eq!(get_str(&rec, "version"), "2.0.0");
    assert_eq!(get_str(&rec, "content"), "body!");
    assert_eq!(get_str(&rec, "category_path"), "Cat");
    match rec.get("tags") {
        Some(JsonVal::Arr(t)) => assert_eq!(t.len(), 0),
        _ => panic!("tags default missing"),
    }
    match rec.get("is_favorite") {
        Some(JsonVal::Bool(b)) => assert!(b),
        _ => panic!("is_favorite missing"),
    }

    let flat = export_record(&d, false, false, "/root");
    assert!(flat.get("content").is_none());
    assert!(flat.get("category_path").is_none());
}

#[test]
fn export_reports_missing_ids() {
    let index = vec![doc("a", "Alpha", "/root/Cat/alpha", "x")];
    let r = export_prompts(
        &index,
        Some(vec![String::from("a"), String::from("ghost")]),
        None,
        Some(true),
        None,
        None,
        "/root",
    );
    assert_eq!(r.total, 1);
    assert_eq!(r.prompts.len(), 1);
    assert_eq!(r.not_found, vec![String::from("ghost")]);
}

#[test]
fn import_rename_on_conflict() {
    let root = "/root";
    let mk_record = |body: &str| {
        let mut r = JsonObj::new();
        r.set("title", JsonVal::Str(String::from("Alpha")));
        r.set("content", JsonVal::Str(String::from(body)));
        r
    };
    let records = vec![mk_record("a"), mk_record("b")];
    let snapshot: Vec<PromptData> = Vec::new();
    let dirs: Vec<String> = Vec::new();
    let (results, actions) = import_prompts(root, &records, None, None, &snapshot, &dirs);
    assert_eq!(results.total, 2);
    assert_eq!(results.success, 2);
    assert_eq!(results.failed, 0);
    assert_eq!(results.skipped, 0);
    assert_eq!(results.details[0].title, "Alpha");
    assert_eq!(results.details[1].title, "Alpha (imported 1)");
    assert_eq!(actions.len(), 2);
    match (&actions[0], &actions[1]) {
        (
            ImportAction::Create { index: i0, path: p0, meta: m0, content: c0 },
            ImportAction::Create { index: i1, path: p1, meta: m1, content: c1 },
        ) => {
            assert_eq!(*i0, 0);
            assert_eq!(*i1, 1);
            assert_eq!(p0, "/root/公共/alpha");
            assert_eq!(p1, "/root/公共/alpha_imported_1");
            assert_eq!(c0, "a");
            assert_eq!(c1, "b");
            assert_eq!(get_str(m0, "title"), "Alpha");
            assert_eq!(get_str(m1, "title"), "Alpha (imported 1)");
        },
        _ => panic!("expected two creations"),
    }
}

#[test]
fn import_requires_title() {
    let mut r = JsonObj::new();
    r.set("content", JsonVal::Str(String::from("x")));
    let records = vec![r];
    let snapshot: Vec<PromptData> = Vec::new();
    let dirs: Vec<String> = Vec::new();
    let (results, actions) = import_prompts("/root", &records, None, None, &snapshot, &dirs);
    assert_eq!(results.failed, 1);
    assert_eq!(results.details[0].status, "failed");
    assert_eq!(results.details[0].error, Some(String::from("Title is required")));
    assert_eq!(actions.len(), 0);
}

#[test]
fn import_skip_and_overwrite() {
    let existing = doc("a", "Alpha", "/root/Cat/alpha", "old");
    let snapshot = vec![existing];
    let dirs = vec![String::from("/root/Cat/alpha")];
    let mut rec = JsonObj::new();
    rec.set("title", JsonVal::Str(String::from("Alpha")));
    rec.set("category_path", JsonVal::Str(String::from("Cat")));
    rec.set("content", JsonVal::Str(String::from("new body")));
    rec.set("author", JsonVal::Str(String::from("Other")));

    let skip_word = String::from("skip");
    let (skipped_r, skipped_a) = import_prompts(
        "/root",
        &vec![{
            let mut c = JsonObj::new();
            c.set("title", JsonVal::Str(String::from("Alpha")));
            c.set("category_path", JsonVal::Str(String::from("Cat")));
            c
        }],
        None,
        Some(&skip_word),
        &snapshot,
        &dirs,
    );
    assert_eq!(skipped_r.skipped, 1);
    assert_eq!(skipped_a.len(), 0);

    let over_word = String::from("overwrite");
    let (over_r, over_a) = import_prompts(
        "/root",
        &vec![rec],
        None,
        Some(&over_word),
        &snapshot,
        &dirs,
    );
    assert_eq!(over_r.success, 1);
    assert_eq!(over_a.len(), 1);
    match &over_a[0] {
        ImportAction::Overwrite { index, path, meta, content } => {
            assert_eq!(*index, 0);
            assert_eq!(path, "/root/Cat/alpha");
            assert_eq!(content, "new body");
            assert_eq!(get_str(meta, "author"), "Other");
            assert_eq!(get_str(meta, "id"), "a");
        },
        _ => panic!("expected an overwrite"),
    }
}

#[test]
fn round_trip_preserves_fields() {
    let original = doc("a", "Alpha", "/root/Cat/alpha", "the body");
    let rec = export_record(&original, true, true, "/root");
    let snapshot: Vec<PromptData> = Vec::new();
    let dirs: Vec<String> = Vec::new();
    let (results, actions) = import_prompts("/root", &vec![rec], None, None, &snapshot, &dirs);
    assert_eq!(results.success, 1);
    match &actions[0] {
        ImportAction::Create { index, path, meta, content } => {
            assert_eq!(*index, 0);
            assert_eq!(path, "/root/Cat/alpha");
            assert_eq!(content, "the body");
            assert_eq!(get_str(meta, "title"), "Alpha");
            assert_eq!(get_str(meta, "type"), "NOTE");
            assert_eq!(get_str(meta, "author"), "Someone");
            assert_eq!(get_str(meta, "version"), "2.0.0");
            match meta.get("is_favorite") {
                Some(JsonVal::Bool(b)) => assert!(b),
                _ => panic!("is_favorite lost"),
            }
        },
        _ => panic!("expected a creation"),
    }
}

#[test]
fn due_evaluation() {
    assert_eq!(calculate_due_time(Some(600), 5, 0), 900);
    assert_eq!(calculate_due_time(None, 5, 1234), 1234);
    let t = TaskMetadata {
        id: String::from("t"),
        title: String::from("T"),
        prompt: String::from("p"),
        last_notified: Some(600),
        interval_minutes: 5,
        file_path: String::from("/v/t"),
    };
    assert!(is_task_due(&t, 900));
    assert!(!is_task_due(&t, 899));
    let fresh = TaskMetadata { last_notified: None, ..t };
    assert!(is_task_due(&fresh, 0));
}

#[test]
fn due_filter_and_update() {
    let mk = |last: Option<i64>| TaskMetadata {
        id: String::from("t"),
        title: String::from("T"),
        prompt: String::from("p"),
        last_notified: last,
        interval_minutes: 1,
        file_path: String::from("/v/t"),
    };
    let tasks = vec![mk(Some(0)), mk(Some(1_000_000))];
    let due = check_due_tasks(&tasks, 100);
    assert_eq!(due.len(), 1);
    assert_eq!(due[0].last_notified, Some(0));

    let mut t = mk(Some(0));
    assert!(update_last_notified_if_due(&mut t, 100));
    assert_eq!(t.last_notified, Some(100));
    let mut late = mk(Some(1_000_000));
    assert!(!update_last_notified_if_due(&mut late, 100));
    assert_eq!(late.last_notified, Some(1_000_000));
}

#[test]
fn json_object_operations() {
    let mut m = JsonObj::new();
    assert!(m.get("k").is_none());
    m.set("k", JsonVal::Int(1));
    m.set("other", JsonVal::Str(String::from("v")));
    m.set("k", JsonVal::Int(2));
    match m.get("k") {
        Some(JsonVal::Int(n)) => assert_eq!(*n, 2),
        _ => panic!("lookup failed"),
    }
    m.remove_key("k");
    assert!(m.get("k").is_none());
    assert_eq!(get_str(&m, "other"), "v");
}
