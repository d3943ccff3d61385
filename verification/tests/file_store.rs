use snerdmq::double::Double;
use snerdmq::file_store::FileStore;
use snerdmq::task::RetryableTask;
use snerdmq::timestamp::Timestamp;

fn at(secs: i64) -> Timestamp {
    Timestamp::new(secs, 0).unwrap()
}

fn task(id: &str, data: &str, updated: i64) -> RetryableTask {
    RetryableTask::new_at(
        id.to_string(), "t".to_string(), data.to_string(), 0, Double::zero(), None, None, None,
        None, None, None, None, None, at(updated),
    )
}

fn gone(id: &str, updated: i64) -> RetryableTask {
    let mut record = task(id, "", updated);
    record.mark_deleted_at(at(updated));
    record
}

fn names(tasks: &[RetryableTask]) -> Vec<(String, String)> {
    tasks.iter().map(|t| (t.task_id.clone(), t.task_data.clone())).collect()
}

fn pairs(list: &[(&str, &str)]) -> Vec<(String, String)> {
    list.iter().map(|(a, b)| (a.to_string(), b.to_string())).collect()
}

#[test]
fn reading_gives_the_last_record_of_each_task() {
    let log = vec![task("a", "1", 1), task("b", "1", 2), task("a", "2", 3), task("c", "1", 4), gone("b", 5)];
    assert_eq!(names(&FileStore::read_tasks(log)), pairs(&[("a", "2"), ("c", "1")]));
    assert!(FileStore::read_tasks(Vec::new()).is_empty());
}

#[test]
fn deleted_task_may_be_saved_again() {
    let log = vec![task("a", "1", 1), gone("a", 2), task("a", "2", 3), gone("x", 4)];
    assert_eq!(names(&FileStore::read_tasks(log)), pairs(&[("a", "2")]));
}

#[test]
fn latest_record_may_be_a_deletion() {
    let log = vec![task("a", "1", 1), task("b", "1", 2), gone("a", 3)];
    assert!(FileStore::get_latest_task(&log, "a").unwrap().deleted_at.is_some());
    assert_eq!(FileStore::get_latest_task(&log, "b").unwrap().task_data, "1");
    assert!(FileStore::get_latest_task(&log, "c").is_none());
}

#[test]
fn deletion_is_a_record() {
    let mut log = vec![task("a", "1", 1), task("a", "2", 2), task("b", "1", 3)];
    let record = FileStore::delete_task_at(&log, "a", at(9)).unwrap();
    assert_eq!(record.task_data, "2");
    assert_eq!(record.deleted_at, Some(at(9)));
    assert_eq!(record.updated_at, at(9));
    log.push(record);
    assert!(FileStore::delete_task_at(&log, "a", at(10)).is_none());
    assert!(FileStore::delete_task_at(&log, "unknown", at(10)).is_none());
    let before = chrono::Utc::now().timestamp();
    assert!(FileStore::delete_task(&log, "b").unwrap().deleted_at.unwrap().secs() >= before);
    assert_eq!(names(&FileStore::read_tasks(log)), pairs(&[("b", "1")]));
}

#[test]
fn compaction_keeps_what_is_read() {
    let log = vec![
        task("a", "1", 1), task("b", "1", 2), gone("b", 3), task("a", "2", 4), task("c", "1", 5),
        task("b", "2", 6), gone("c", 7),
    ];
    let read = names(&FileStore::read_tasks(log.clone()));
    let kept = FileStore::compact_log(log);
    assert_eq!(names(&kept), pairs(&[("a", "2"), ("b", "2")]));
    assert_eq!(names(&kept), read);
    assert_eq!(names(&FileStore::read_tasks(kept.clone())), read);
    assert_eq!(names(&FileStore::compact_log(kept)), read);
}

#[test]
fn compaction_keeps_the_last_record_whatever_its_time() {
    for (first, second) in [(5, 3), (5, 5), (3, 5)] {
        let log = vec![task("a", "first", first), task("a", "second", second)];
        assert_eq!(names(&FileStore::compact_log(log)), pairs(&[("a", "second")]));
    }
}

#[test]
fn saving_again_does_not_move_a_task() {
    let log = vec![
        task("a", "1", 1), task("b", "1", 2), task("c", "1", 3), task("a", "2", 4), gone("b", 5),
        task("b", "2", 6),
    ];
    let expected = pairs(&[("a", "2"), ("c", "1"), ("b", "2")]);
    assert_eq!(names(&FileStore::read_tasks(log.clone())), expected);
    assert_eq!(names(&FileStore::compact_log(log)), expected);
}

#[test]
fn deferral_survives_compaction() {
    let mut put_off = task("a", "1", 1);
    put_off.retry_after_time = at(61);
    let kept = FileStore::compact_log(vec![task("a", "1", 1), put_off]);
    assert_eq!(kept[0].retry_after_time, at(61));
}

#[test]
fn compaction_starts_at_half_deletions() {
    for live in 0..60usize {
        for deleted in 0..60usize {
            let mut log = Vec::new();
            for i in 0..live {
                log.push(task(&format!("{}", i), "", 0));
            }
            for i in 0..deleted {
                log.push(gone(&format!("{}", i), 0));
            }
            let store = FileStore::new(&log);
            let expected = live > 0 && (deleted as f64 / live as f64) > 0.5;
            assert_eq!(store.should_compact(None), expected);
            assert_eq!(store.should_compact(Some(20 * 1024 * 1024)), expected);
            assert!(store.should_compact(Some(20 * 1024 * 1024 + 1)));
        }
    }
}

#[test]
fn compaction_starts_at_ten_thousand_appends() {
    let mut store = FileStore::new(&Vec::new());
    let record = task("a", "", 0);
    for _ in 0..9_999 {
        assert!(store.can_save(&record));
        store.save_task(&record);
        assert!(!store.should_compact(None));
    }
    store.save_task(&record);
    assert!(store.should_compact(None));
    assert!(store.begin_compaction());
    assert!(!store.begin_compaction());
    store.finish_compaction(None);
    assert!(store.should_compact(None));
    assert!(store.begin_compaction());
    store.finish_compaction(Some(1));
    assert!(!store.should_compact(None));
}

#[test]
fn counting_agrees_with_a_fresh_count() {
    let log = vec![task("a", "", 0), task("b", "", 0), task("c", "", 0)];
    let mut store = FileStore::new(&log);
    store.save_task(&gone("a", 1));
    assert!(!store.should_compact(None));
    store.save_task(&gone("b", 1));
    assert!(store.should_compact(None));
    store.rebuild_metadata(&log);
    assert!(!store.should_compact(None));
}
