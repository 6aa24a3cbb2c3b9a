use prompt_vault::json::{JsonObj, JsonVal};
use prompt_vault::meta::{
    default_meta_map, is_interval_task, read_last_notified, update_last_notified_meta,
    validate_meta, PromptCreateOptions,
};
use prompt_vault::scanner::{
    build_flat_index, build_file_system_state, collect_all_prompts, parse_task, prompt_id,
    scan_vault, should_rescan, CategoryNode, PromptData,
};
use prompt_vault::trash::{trash_status_core, trash_threshold, trash_visit_core};
use prompt_vault::vault_ops::{
    create_category, create_prompt, delete_category, delete_prompt, fresh_doc_path,
    get_vault_root, move_category, rename_category, restore_prompt, save_prompt, upload_image,
};
use prompt_vault::{VaultError, VaultState};

fn get_str(m: &JsonObj, k: &str) -> String {
    match m.get(k) {
        Some(JsonVal::Str(s)) => s.clone(),
        _ => panic!("expected string under key"),
    }
}

fn task_meta(id: &str, minutes: i64) -> JsonObj {
    let mut m = JsonObj::new();
    m.set("id", JsonVal::Str(String::from(id)));
    m.set("type", JsonVal::Str(String::from("TASK")));
    let mut rec = JsonObj::new();
    rec.set("enabled", JsonVal::Bool(true));
    rec.set("type", JsonVal::Str(String::from("interval")));
    rec.set("intervalMinutes", JsonVal::Int(minutes));
    m.set("recurrence", JsonVal::Obj(rec));
    m
}

#[test]
fn create_then_read_shape() {
    let state = VaultState(String::from("/root"));
    assert_eq!(get_vault_root(&state), "/root");
    let existing: Vec<String> = Vec::new();
    let plan = create_prompt(
        &state,
        "/root/Coding",
        "Hello World",
        Some(PromptCreateOptions { doc_type: Some(String::from("NOTE")), scheduled_time: None }),
        &existing,
    )
    .unwrap();
    assert_eq!(plan.prompt.path, "/root/Coding/hello_world");
    assert_eq!(plan.prompt.content, "");
    let m = &plan.prompt.meta;
    assert_eq!(get_str(m, "title"), "Hello World");
    assert_eq!(get_str(m, "slug"), "hello_world");
    assert_eq!(get_str(m, "type"), "NOTE");
    assert_eq!(get_str(m, "id").len(), 36);
    assert_eq!(get_str(m, "category_path"), "/root/Coding");
    assert_eq!(get_str(m, "category"), "Coding");
}

#[test]
fn create_prompt_rejects_escape() {
    let state = VaultState(String::from("/root"));
    let existing: Vec<String> = Vec::new();
    let r = create_prompt(&state, "/elsewhere", "X", None, &existing);
    assert!(matches!(r, Err(VaultError::InvalidPath)));
}

#[test]
fn slug_collision_appends_suffix() {
    let state = VaultState(String::from("/root"));
    let existing: Vec<String> = Vec::new();
    let first = create_prompt(&state, "/root/c", "X", None, &existing).unwrap();
    assert_eq!(first.prompt.path, "/root/c/x");
    let taken = vec![String::from("/root/c/x")];
    let second = create_prompt(&state, "/root/c", "X", None, &taken).unwrap();
    assert_eq!(second.prompt.path, "/root/c/x_2");
    let taken2 = vec![String::from("/root/c/x"), String::from("/root/c/x_2")];
    assert_eq!(fresh_doc_path("/root/c", "x", &taken2), "/root/c/x_3");
}

#[test]
fn fresh_ids_differ_between_creates() {
    let state = VaultState(String::from("/root"));
    let existing: Vec<String> = Vec::new();
    let a = create_prompt(&state, "/root/c", "A", None, &existing).unwrap();
    let b = create_prompt(&state, "/root/c", "B", None, &existing).unwrap();
    assert_ne!(get_str(&a.prompt.meta, "id"), get_str(&b.prompt.meta, "id"));
}

#[test]
fn trash_round_trip_metadata() {
    let state = VaultState(String::from("/root"));
    let mut meta = JsonObj::new();
    meta.set("id", JsonVal::Str(String::from("d1")));
    meta.set("type", JsonVal::Str(String::from("NOTE")));
    let plan = delete_prompt(&state, "Coding/doc", None, Some(meta)).unwrap().unwrap();
    assert_eq!(plan.resolved, "/root/Coding/doc");
    assert!(plan.target.starts_with("/root/trash/doc_"));
    let trashed = plan.meta.unwrap();
    assert_eq!(get_str(&trashed, "original_path"), "/root/Coding/doc");

    let restore = restore_prompt(&state, "trash/doc_123", trashed, false).unwrap();
    assert_eq!(restore.target, "/root/Coding/doc");
    let m2 = restore.meta;
    assert!(m2.get("original_path").is_none());
    assert_eq!(get_str(&m2, "category_path"), "/root/Coding/doc");
}

#[test]
fn restore_rejects_escaping_marker() {
    // A trash marker pointing outside the vault is refused: every
    // mutating path passes the containment check.
    let state = VaultState(String::from("/root"));
    let mut meta = JsonObj::new();
    meta.set("original_path", JsonVal::Str(String::from("/elsewhere/doc")));
    let r = restore_prompt(&state, "trash/doc_1", meta, false);
    assert!(matches!(r, Err(VaultError::InvalidPath)));
}

#[test]
fn restore_without_marker_goes_to_restored() {
    let state = VaultState(String::from("/root"));
    let meta = JsonObj::new();
    let plan = restore_prompt(&state, "trash/x_1", meta, false).unwrap();
    assert_eq!(plan.target, "/root/Restored");
    let meta2 = JsonObj::new();
    let busy = restore_prompt(&state, "trash/x_1", meta2, true).unwrap();
    assert!(busy.target.starts_with("/root/Restored_restored_"));
}

#[test]
fn permanent_delete_has_no_trash_plan() {
    let state = VaultState(String::from("/root"));
    let r = delete_prompt(&state, "Coding/doc", Some(true), None).unwrap();
    assert!(r.is_none());
}

#[test]
fn category_operations() {
    let state = VaultState(String::from("/root"));
    assert_eq!(create_category(&state, "/root", "New", false).unwrap(), "/root/New");
    assert!(matches!(
        create_category(&state, "/root", "New", true),
        Err(VaultError::Conflict)
    ));
    let (from, to) = rename_category(&state, "/root/Old", "Fresh").unwrap();
    assert_eq!(from, "/root/Old");
    assert_eq!(to, "/root/Fresh");
    let (name, from2, to2) = move_category(&state, "/root/A/B", "/root/C", false).unwrap();
    assert_eq!(name, "B");
    assert_eq!(from2, "/root/A/B");
    assert_eq!(to2, "/root/C/B");
    assert!(matches!(
        move_category(&state, "/root/A/B", "/root/C", true),
        Err(VaultError::Conflict)
    ));
    let (cfrom, cto) = delete_category(&state, "/root/A").unwrap();
    assert_eq!(cfrom, "/root/A");
    assert!(cto.starts_with("/root/trash/A_"));
}

#[test]
fn save_prompt_touches_updated_at() {
    let state = VaultState(String::from("/root"));
    let mut meta = JsonObj::new();
    meta.set("id", JsonVal::Str(String::from("d")));
    meta.set("title", JsonVal::Str(String::from("T")));
    let doc = PromptData {
        meta,
        content: String::from("body"),
        path: String::from("Coding/doc"),
    };
    let saved = save_prompt(&state, doc).unwrap();
    assert_eq!(saved.path, "/root/Coding/doc");
    assert_eq!(saved.content, "body");
    assert_eq!(get_str(&saved.meta, "title"), "T");
    assert!(saved.meta.get("updated_at").is_some());
}

#[test]
fn upload_image_decodes_payload() {
    let state = VaultState(String::from("/root"));
    let plan = upload_image(
        &state,
        "data:image/png;base64,aGk=",
        "doc-1",
        Some(String::from("pic.png")),
    )
    .unwrap();
    assert_eq!(plan.assets_dir, "/root/assets/doc-1");
    assert_eq!(plan.file_path, "/root/assets/doc-1/pic.png");
    assert_eq!(plan.relative, "assets/doc-1/pic.png");
    assert_eq!(plan.bytes, b"hi".to_vec());
    let bad = upload_image(&state, "%%%", "doc-1", None);
    assert!(matches!(bad, Err(VaultError::Io)));
}

#[test]
fn meta_validation_and_baseline() {
    let mut ok = JsonObj::new();
    ok.set("id", JsonVal::Str(String::from("x")));
    ok.set("type", JsonVal::Str(String::from("TASK")));
    assert!(validate_meta(&ok).is_ok());
    assert_eq!(read_last_notified(&ok), 0);
    assert!(update_last_notified_meta(&mut ok, 42).is_ok());
    assert_eq!(read_last_notified(&ok), 42);

    let mut bad = JsonObj::new();
    bad.set("title", JsonVal::Str(String::from("x")));
    assert!(matches!(validate_meta(&bad), Err(VaultError::InvalidMeta)));
    assert!(update_last_notified_meta(&mut bad, 42).is_err());
}

#[test]
fn interval_filter_is_exact() {
    assert!(is_interval_task(&task_meta("a", 5)));
    assert!(!is_interval_task(&task_meta("a", 0)));
    let mut not_task = task_meta("a", 5);
    not_task.set("type", JsonVal::Str(String::from("NOTE")));
    assert!(!is_interval_task(&not_task));
    let mut disabled = task_meta("a", 5);
    let mut rec = JsonObj::new();
    rec.set("enabled", JsonVal::Bool(false));
    rec.set("type", JsonVal::Str(String::from("interval")));
    rec.set("intervalMinutes", JsonVal::Int(5));
    disabled.set("recurrence", JsonVal::Obj(rec));
    assert!(!is_interval_task(&disabled));
    let mut wrong_kind = task_meta("a", 5);
    let mut rec2 = JsonObj::new();
    rec2.set("enabled", JsonVal::Bool(true));
    rec2.set("type", JsonVal::Str(String::from("weekly")));
    rec2.set("intervalMinutes", JsonVal::Int(5));
    wrong_kind.set("recurrence", JsonVal::Obj(rec2));
    assert!(!is_interval_task(&wrong_kind));
}

#[test]
fn default_meta_shape() {
    let opts = PromptCreateOptions { doc_type: None, scheduled_time: Some(String::from("soon")) };
    let m = default_meta_map("T", "t", "/r/Cat", &opts, "some-id", "2024-01-01T00:00:00Z");
    assert_eq!(get_str(&m, "id"), "some-id");
    assert_eq!(get_str(&m, "type"), "NOTE");
    assert_eq!(get_str(&m, "version"), "1.0.0");
    assert_eq!(get_str(&m, "author"), "User");
    assert_eq!(get_str(&m, "created_at"), "2024-01-01T00:00:00Z");
    assert_eq!(get_str(&m, "scheduled_time"), "soon");
    assert_eq!(get_str(&m, "category"), "Cat");
    match m.get("tags") {
        Some(JsonVal::Arr(items)) => assert_eq!(items.len(), 0),
        _ => panic!("tags missing"),
    }
    match m.get("is_favorite") {
        Some(JsonVal::Bool(b)) => assert!(!b),
        _ => panic!("is_favorite missing"),
    }
    match m.get("model_config") {
        Some(JsonVal::Obj(cfg)) => {
            assert_eq!(get_str(cfg, "default_model"), "gpt-4");
        },
        _ => panic!("model_config missing"),
    }
    assert!(m.get("recurrence").is_none());
}

#[test]
fn task_scanning_filters_and_reads_baseline() {
    let mut with_baseline = task_meta("t1", 3);
    with_baseline.set("last_notified", JsonVal::Int(777));
    let docs = vec![
        (String::from("/v/a"), with_baseline),
        (String::from("/v/b"), {
            let mut m = JsonObj::new();
            m.set("id", JsonVal::Str(String::from("n1")));
            m.set("type", JsonVal::Str(String::from("NOTE")));
            m
        }),
        (String::from("/v/c"), task_meta("t2", 9)),
    ];
    let tasks = scan_vault(&docs);
    assert_eq!(tasks.len(), 2);
    assert_eq!(tasks[0].id, "t1");
    assert_eq!(tasks[0].last_notified, 777);
    assert_eq!(tasks[0].interval_minutes, 3);
    assert_eq!(tasks[0].file_path, "/v/a");
    assert_eq!(tasks[1].id, "t2");

    let mut no_id = task_meta("x", 2);
    no_id.remove_key("id");
    assert!(parse_task("/v/d", &no_id).is_err());
    assert!(should_rescan(10, 9));
    assert!(!should_rescan(9, 9));
}

#[test]
fn flat_index_keeps_last_occurrence() {
    let mk = |id: &str, path: &str| PromptData {
        meta: {
            let mut m = JsonObj::new();
            m.set("id", JsonVal::Str(String::from(id)));
            m
        },
        content: String::new(),
        path: String::from(path),
    };
    let all = vec![mk("a", "/v/1"), mk("b", "/v/2"), mk("a", "/v/3")];
    let index = build_flat_index(&all);
    assert_eq!(index.len(), 2);
    let a = index
        .iter()
        .find(|p| prompt_id(&p.meta) == Some(String::from("a")))
        .unwrap();
    assert_eq!(a.path, "/v/3");
}

#[test]
fn tree_collection_and_state() {
    let doc = |id: &str, path: &str| PromptData {
        meta: {
            let mut m = JsonObj::new();
            m.set("id", JsonVal::Str(String::from(id)));
            m
        },
        content: String::new(),
        path: String::from(path),
    };
    let inner = CategoryNode {
        name: String::from("Sub"),
        path: String::from("/r/Cat/Sub"),
        children: Vec::new(),
        prompts: vec![doc("s1", "/r/Cat/Sub/one")],
    };
    let outer = CategoryNode {
        name: String::from("Cat"),
        path: String::from("/r/Cat"),
        children: vec![inner],
        prompts: vec![doc("c1", "/r/Cat/two")],
    };
    let all = collect_all_prompts(&vec![outer]);
    assert_eq!(all.len(), 2);
    assert_eq!(all[0].path, "/r/Cat/two");
    assert_eq!(all[1].path, "/r/Cat/Sub/one");

    let outer2 = CategoryNode {
        name: String::from("Cat"),
        path: String::from("/r/Cat"),
        children: Vec::new(),
        prompts: vec![doc("c1", "/r/Cat/two")],
    };
    let fs = build_file_system_state(
        String::from("/r"),
        vec![outer2],
        vec![doc("r1", "/r/free")],
        vec![doc("t1", "/r/trash/gone_1")],
    );
    assert_eq!(fs.root, "/r");
    assert_eq!(fs.all_prompts.len(), 3);
}

#[test]
fn trash_expiry_scenario() {
    assert_eq!(trash_threshold(None), 10);
    assert_eq!(trash_threshold(Some(3)), 3);
    let items = vec![String::from("A")];
    let visits = JsonObj::new();

    let sweep1 = trash_visit_core(&items, &visits, 3);
    assert_eq!(sweep1.visited_count, 1);
    assert_eq!(sweep1.deleted.len(), 0);

    let sweep2 = trash_visit_core(&items, &sweep1.visits, 3);
    assert_eq!(sweep2.deleted.len(), 0);

    let sweep3 = trash_visit_core(&items, &sweep2.visits, 3);
    assert_eq!(sweep3.deleted.len(), 1);
    assert_eq!(sweep3.deleted[0].0, "A");
    assert_eq!(sweep3.deleted[0].1, 3);
    assert!(sweep3.visits.get("A").is_none());
}

#[test]
fn trash_status_prunes_and_counts() {
    let mut visits = JsonObj::new();
    visits.set("A", JsonVal::Int(2));
    visits.set("gone", JsonVal::Int(9));
    let items = vec![String::from("A"), String::from("B")];
    let (pruned, counts) = trash_status_core(&items, &visits);
    assert!(pruned.get("gone").is_none());
    assert_eq!(counts.len(), 2);
    assert_eq!(counts[0], (String::from("A"), 2));
    assert_eq!(counts[1], (String::from("B"), 0));
}

#[test]
fn scan_benchmark_1000_tasks() {
    let mut docs = Vec::new();
    for index in 0..1000 {
        docs.push((format!("/v/task_{}", index), task_meta(&format!("id_{}", index), 5)));
    }
    let tasks = scan_vault(&docs);
    assert_eq!(tasks.len(), 1000);
}
