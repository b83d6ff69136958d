use task_tracker::app::{App, TaskError};
use task_tracker::summary::{asset_key, Asset};
use task_tracker::task::{StopOutcome, Task, TaskStaus};
use task_tracker::time::Time;

fn status_of(app: &App, id: u64) -> TaskStaus {
    *app.get_tasks().iter().find(|t| t.get_id() == id).unwrap().get_status()
}

fn task_of(app: &App, id: u64) -> &Task {
    app.get_tasks().iter().find(|t| t.get_id() == id).unwrap()
}

#[test]
fn ids_strictly_increase_over_roots_and_subtasks() {
    let mut app = App::new();
    let mut ids = Vec::new();
    ids.push(app.add_task("a".to_string()).unwrap());
    ids.push(app.add_subtask(ids[0], "b".to_string()).unwrap());
    ids.push(app.add_task("c".to_string()).unwrap());
    ids.push(app.add_subtask(ids[1], "d".to_string()).unwrap());
    ids.push(app.add_subtask(ids[0], "e".to_string()).unwrap());
    assert_eq!(ids, vec![0, 1, 2, 3, 4]);
    for w in ids.windows(2) {
        assert!(w[0] < w[1]);
    }
    assert_eq!(app.get_tasks().len(), 5);
    assert_eq!(app.get_next_id(), 5);
    assert_eq!(task_of(&app, 3).get_parent_id(), Some(1));
    assert_eq!(task_of(&app, 2).get_parent_id(), None);
    assert_eq!(task_of(&app, 4).get_name(), "e");
}

#[test]
fn subtask_of_unknown_parent_is_refused() {
    let mut app = App::new();
    assert_eq!(app.add_subtask(9, "x".to_string()), Err(TaskError::TaskNotFound));
    assert_eq!(app.get_tasks().len(), 0);
    assert_eq!(app.get_next_id(), 0);
}

#[test]
fn start_cascades_to_incomplete_parent() {
    let mut app = App::new();
    let r = app.add_task("root".to_string()).unwrap();
    let s = app.add_subtask(r, "sub".to_string()).unwrap();
    app.start_task(s).unwrap();
    assert_eq!(status_of(&app, r), TaskStaus::InProgress);
    assert_eq!(status_of(&app, s), TaskStaus::InProgress);
    assert!(task_of(&app, r).start_time.is_some());
    assert!(task_of(&app, s).start_time.is_some());
}

#[test]
fn start_leaves_completed_parent_alone() {
    let mut app = App::new();
    let r = app.add_task("root".to_string()).unwrap();
    let s = app.add_subtask(r, "sub".to_string()).unwrap();
    app.stop_task(r, None).unwrap();
    let before = task_of(&app, r).end_time;
    app.start_task(s).unwrap();
    assert_eq!(status_of(&app, r), TaskStaus::Complete);
    assert_eq!(task_of(&app, r).start_time, None);
    assert_eq!(task_of(&app, r).end_time, before);
    assert_eq!(status_of(&app, s), TaskStaus::InProgress);
}

#[test]
fn start_cascade_stops_at_progressed_ancestor() {
    let mut app = App::new();
    let a = app.add_task("a".to_string()).unwrap();
    let b = app.add_subtask(a, "b".to_string()).unwrap();
    let c = app.add_subtask(b, "c".to_string()).unwrap();
    let d = app.add_subtask(c, "d".to_string()).unwrap();
    app.start_task(b).unwrap();
    assert_eq!(status_of(&app, a), TaskStaus::InProgress);
    app.stop_task(a, None).unwrap();
    app.start_task(d).unwrap();
    assert_eq!(status_of(&app, d), TaskStaus::InProgress);
    assert_eq!(status_of(&app, c), TaskStaus::InProgress);
    assert_eq!(status_of(&app, b), TaskStaus::InProgress);
    assert_eq!(status_of(&app, a), TaskStaus::Complete);
}

#[test]
fn unknown_ids_are_refused_without_change() {
    let mut app = App::new();
    app.add_task("a".to_string()).unwrap();
    assert_eq!(app.start_task(5), Err(TaskError::TaskNotFound));
    assert!(matches!(app.stop_task(5, None), Err(TaskError::TaskNotFound)));
    assert_eq!(app.rename_task(5, "z".to_string()), Err(TaskError::TaskNotFound));
    assert!(matches!(
        app.resolve_assets(5, "text", &Vec::new()),
        Err(TaskError::TaskNotFound)
    ));
    assert_eq!(status_of(&app, 0), TaskStaus::Incomplete);
    assert_eq!(task_of(&app, 0).get_name(), "a");
}

#[test]
fn rename_keeps_status_and_times() {
    let mut app = App::new();
    let id = app.add_task("old name".to_string()).unwrap();
    app.start_task(id).unwrap();
    app.stop_task(id, None).unwrap();
    let start = task_of(&app, id).start_time;
    let end = task_of(&app, id).end_time;
    app.rename_task(id, "new name".to_string()).unwrap();
    let t = task_of(&app, id);
    assert_eq!(t.get_name(), "new name");
    assert_eq!(*t.get_status(), TaskStaus::Complete);
    assert_eq!(t.start_time, start);
    assert_eq!(t.end_time, end);
    let mut fresh = App::new();
    let f = fresh.add_task("x".to_string()).unwrap();
    fresh.rename_task(f, "y".to_string()).unwrap();
    assert_eq!(status_of(&fresh, f), TaskStaus::Incomplete);
    assert_eq!(task_of(&fresh, f).start_time, None);
    assert_eq!(task_of(&fresh, f).end_time, None);
}

#[test]
fn stop_with_local_image_is_deferred() {
    let mut app = App::new();
    let id = app.add_task("t".to_string()).unwrap();
    match app.stop_task(id, Some("![pic](pic.png)\nDone".to_string())).unwrap() {
        StopOutcome::Pending { text, images } => {
            assert_eq!(text, "![pic](pic.png)\nDone");
            assert_eq!(images.len(), 1);
            assert_eq!(images[0].name, "pic");
            assert_eq!(images[0].path, "pic.png");
        }
        other => panic!("expected a pending summary, got {:?}", other),
    }
    assert_eq!(status_of(&app, id), TaskStaus::Complete);
    assert!(task_of(&app, id).end_time.is_some());
    assert_eq!(task_of(&app, id).summary, None);
}

#[test]
fn stop_without_images_renders_at_once() {
    let mut app = App::new();
    app.add_task("first".to_string()).unwrap();
    let id = app.add_task("t".to_string()).unwrap();
    match app.stop_task(id, Some("no images here".to_string())).unwrap() {
        StopOutcome::Rendered { key, html } => {
            assert_eq!(key, "summaries/1.html");
            assert!(html.contains("<p>no images here</p>"));
            assert_ne!(html, "no images here");
        }
        other => panic!("expected a rendered summary, got {:?}", other),
    }
    assert_eq!(task_of(&app, id).summary, Some("summaries/1.html".to_string()));
    assert_eq!(status_of(&app, id), TaskStaus::Complete);
}

#[test]
fn stop_without_summary() {
    let mut app = App::new();
    let id = app.add_task("t".to_string()).unwrap();
    assert!(matches!(app.stop_task(id, None).unwrap(), StopOutcome::Stopped));
    assert_eq!(status_of(&app, id), TaskStaus::Complete);
    assert_eq!(task_of(&app, id).start_time, None);
}

#[test]
fn hosted_images_are_never_staged() {
    let mut app = App::new();
    let id = app.add_task("t".to_string()).unwrap();
    match app
        .stop_task(id, Some("![a](a.png) ![b](http://x/b.png)".to_string()))
        .unwrap()
    {
        StopOutcome::Pending { images, .. } => {
            assert_eq!(images.len(), 1);
            assert_eq!(images[0].name, "a");
            assert_eq!(images[0].path, "a.png");
        }
        other => panic!("expected a pending summary, got {:?}", other),
    }
}

#[test]
fn resolving_assets_rewrites_links_and_renders() {
    let mut app = App::new();
    let id = app.add_task("t".to_string()).unwrap();
    let staged = "![a](a.png) ![b](http://x/b.png)".to_string();
    assert!(matches!(
        app.stop_task(id, Some(staged.clone())).unwrap(),
        StopOutcome::Pending { .. }
    ));
    let assets = vec![Asset {
        name: "a".to_string(),
        bytes: vec![1, 2, 3],
        extension: "png".to_string(),
    }];
    let res = app.resolve_assets(id, &staged, &assets).unwrap();
    assert_eq!(res.text, "![a](images/0_a.png) ![b](http://x/b.png)");
    assert_eq!(res.image_paths, vec!["images/0_a.png".to_string()]);
    assert_eq!(res.key, "summaries/0.html");
    assert!(res.html.contains("images/0_a.png"));
    assert!(res.html.contains("http://x/b.png"));
    assert_eq!(task_of(&app, id).summary, Some("summaries/0.html".to_string()));
}

#[test]
fn resolving_keeps_unmatched_and_plain_lines() {
    let mut app = App::new();
    app.add_task("a".to_string()).unwrap();
    let id = app.add_task("t".to_string()).unwrap();
    let staged = "intro\n![x](x.jpg)\n![y](y.gif) and ![x](again.jpg)\nend";
    let assets = vec![
        Asset { name: "x".to_string(), bytes: vec![], extension: "jpg".to_string() },
        Asset { name: "x".to_string(), bytes: vec![], extension: "png".to_string() },
        Asset { name: "z".to_string(), bytes: vec![], extension: "bmp".to_string() },
    ];
    let res = app.resolve_assets(id, staged, &assets).unwrap();
    assert_eq!(
        res.text,
        "intro\n![x](images/1_x.jpg)\n![y](y.gif) and ![x](images/1_x.jpg)\nend"
    );
    assert_eq!(res.image_paths.len(), 3);
    assert_eq!(res.image_paths[2], "images/1_z.bmp");
}

#[test]
fn asset_keys_follow_the_key_format() {
    let asset = Asset { name: "diagram".to_string(), bytes: vec![], extension: "png".to_string() };
    assert_eq!(asset_key(42, &asset), "42_diagram.png");
}

#[test]
fn restoring_a_store_checks_it() {
    let ok = vec![
        Task::new(0, None, "a".to_string()),
        Task::new(3, Some(0), "b".to_string()),
    ];
    let app = App::restore(ok, 4).unwrap();
    assert_eq!(app.get_tasks().len(), 2);
    assert_eq!(app.get_next_id(), 4);
    let bad_order = vec![Task::new(3, None, "a".to_string()), Task::new(1, None, "b".to_string())];
    assert!(App::restore(bad_order, 4).is_none());
    let bad_next = vec![Task::new(0, None, "a".to_string())];
    assert!(App::restore(bad_next, 0).is_none());
    let missing_parent = vec![Task::new(0, None, "a".to_string()), Task::new(2, Some(1), "b".to_string())];
    assert!(App::restore(missing_parent, 3).is_none());
}

#[test]
fn status_labels() {
    assert_eq!(TaskStaus::Incomplete.label(), "Incomplete");
    assert_eq!(TaskStaus::InProgress.label(), "In Progress");
    assert_eq!(TaskStaus::Complete.label(), "Complete");
}

#[test]
fn task_lifecycle_directly() {
    let mut t = Task::new(7, Some(2), "x".to_string());
    assert_eq!(t.get_id(), 7);
    assert_eq!(*t.get_status(), TaskStaus::Incomplete);
    let at = Time::new(2024, 5, 1, 9, 0, 0).unwrap();
    t.start_at(at);
    assert_eq!(t.start_time, Some(at));
    assert_eq!(*t.get_status(), TaskStaus::InProgress);
    let end = Time::new(2024, 5, 1, 10, 0, 0).unwrap();
    assert!(matches!(t.stop_at(end, None), StopOutcome::Stopped));
    assert_eq!(t.end_time, Some(end));
    assert_eq!(*t.get_status(), TaskStaus::Complete);
    t.rename("y".to_string());
    assert_eq!(t.get_name(), "y");
}
