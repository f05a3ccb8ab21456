use uploader::rollout::{
    chunk_count, chunk_range, plan_switchover, Rollout, RolloutAction, RolloutEvent, Stage,
    Target,
};

fn drive(total: usize, fail_at: Option<usize>) -> Vec<RolloutAction> {
    let (mut r, mut a) = Rollout::start(total);
    let mut actions = vec![a];
    let mut step = 0;
    while !matches!(a, RolloutAction::Complete | RolloutAction::Abort(_)) {
        let ev = if Some(step) == fail_at { RolloutEvent::Failed } else { RolloutEvent::Succeeded };
        assert!(r.is_consistent());
        a = r.advance(ev);
        actions.push(a);
        step += 1;
    }
    actions
}

#[test]
fn blue_active_loads_green_then_flips_then_blue() {
    let t = plan_switchover("blue", "db-blue", "db-green").unwrap();
    assert_eq!(t.inactive_db, "db-green");
    assert_eq!(t.new_active_label, "green");
    assert_eq!(t.secondary_db, "db-blue");

    let total = 2500;
    let batch: Vec<u32> = (0..total as u32).collect();
    let mut pointer = "blue".to_string();
    let mut green: Vec<u32> = Vec::new();
    let mut blue: Vec<u32> = Vec::new();
    let mut persisted = false;
    for a in drive(total, None) {
        match a {
            RolloutAction::Upload { target, start, end, .. } => {
                assert!(!persisted);
                let db = if target == Target::Inactive { &mut green } else { &mut blue };
                if target == Target::Secondary {
                    assert_eq!(pointer, "green");
                } else {
                    assert_eq!(pointer, "blue");
                }
                db.extend_from_slice(&batch[start..end]);
            }
            RolloutAction::FlipPointer => {
                assert_eq!(green, batch);
                pointer = t.new_active_label.clone();
            }
            RolloutAction::PersistCheckpoint => {
                assert_eq!(blue, batch);
                persisted = true;
            }
            RolloutAction::Complete => {}
            RolloutAction::Abort(s) => panic!("aborted at {s:?}"),
        }
    }
    assert_eq!(pointer, "green");
    assert_eq!(green, batch);
    assert_eq!(blue, batch);
    assert!(persisted);
}

#[test]
fn green_active_loads_blue_first() {
    let t = plan_switchover("green", "db-blue", "db-green").unwrap();
    assert_eq!((t.inactive_db.as_str(), t.new_active_label.as_str(), t.secondary_db.as_str()), ("db-blue", "blue", "db-green"));
}

#[test]
fn unexpected_label_is_refused() {
    let e = plan_switchover("purple", "b", "g").unwrap_err();
    assert_eq!(e.label, "purple");
    assert!(plan_switchover("Blue", "b", "g").is_err());
}

#[test]
fn chunking() {
    assert_eq!(chunk_count(0), 0);
    assert_eq!(chunk_count(1), 1);
    assert_eq!(chunk_count(1000), 1);
    assert_eq!(chunk_count(1001), 2);
    assert_eq!(chunk_range(2500, 0), (0, 1000));
    assert_eq!(chunk_range(2500, 2), (2000, 2500));
    assert_eq!(chunk_range(2000, 1), (1000, 2000));
}

#[test]
fn failure_on_secondary_never_persists() {
    let actions = drive(2500, Some(4));
    assert!(!actions.contains(&RolloutAction::PersistCheckpoint));
    assert!(actions.contains(&RolloutAction::FlipPointer));
    assert_eq!(*actions.last().unwrap(), RolloutAction::Abort(Stage::Secondary));
}

#[test]
fn failure_on_inactive_never_flips() {
    let actions = drive(2500, Some(1));
    assert!(!actions.contains(&RolloutAction::FlipPointer));
    assert_eq!(*actions.last().unwrap(), RolloutAction::Abort(Stage::Inactive));
}

#[test]
fn empty_batch_still_flips_and_persists() {
    let actions = drive(0, None);
    assert_eq!(
        actions,
        vec![RolloutAction::FlipPointer, RolloutAction::PersistCheckpoint, RolloutAction::Complete]
    );
}

#[test]
fn dry_run_only_persists() {
    let (mut r, a) = Rollout::start_dry_run(10);
    assert_eq!(a, RolloutAction::PersistCheckpoint);
    assert_eq!(r.advance(RolloutEvent::Succeeded), RolloutAction::Complete);
}

#[test]
fn uploads_are_sequential_chunks() {
    let actions = drive(2001, None);
    let uploads: Vec<(Target, usize, usize, usize)> = actions
        .iter()
        .filter_map(|a| match a {
            RolloutAction::Upload { target, chunk, start, end } => Some((*target, *chunk, *start, *end)),
            _ => None,
        })
        .collect();
    assert_eq!(
        uploads,
        vec![
            (Target::Inactive, 0, 0, 1000),
            (Target::Inactive, 1, 1000, 2000),
            (Target::Inactive, 2, 2000, 2001),
            (Target::Secondary, 0, 0, 1000),
            (Target::Secondary, 1, 1000, 2000),
            (Target::Secondary, 2, 2000, 2001),
        ]
    );
}
