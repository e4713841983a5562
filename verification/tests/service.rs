use tentacle::protocol_select::{respond, select_version, ProtocolInfo, SelectReply};
use tentacle::service::config::{
    recipients, ProtocolMeta, ProtocolRegistry, RegistryError, TargetSession,
};
use tentacle::error::Error;
use tentacle::service::event::ServiceTask;
use tentacle::service::notify::NotifySchedule;
use tentacle::service::{Load, ServiceState, SessionIds, TaskQueue};
use tentacle::{ProtocolId, SessionId};

fn meta(id: usize, name: &str, versions: &[&str]) -> ProtocolMeta {
    ProtocolMeta {
        id: ProtocolId::new(id),
        name: name.to_string(),
        support_versions: versions.iter().map(|v| v.to_string()).collect(),
        session_timeout: 10_000,
        max_frame_len: 1024,
    }
}

fn strings(items: &[&str]) -> Vec<String> {
    items.iter().map(|v| v.to_string()).collect()
}

fn ids(items: &[usize]) -> Vec<SessionId> {
    items.iter().map(|i| SessionId::new(*i)).collect()
}

#[test]
fn session_ids_increase() {
    let mut source = SessionIds::new();
    assert_eq!(source.assign(), Some(SessionId::new(1)));
    assert_eq!(source.assign(), Some(SessionId::new(2)));
    assert_eq!(source.assign(), Some(SessionId::new(3)));
    assert_eq!(source.next, 4);
    let mut last = SessionIds { next: usize::MAX - 1 };
    assert_eq!(last.assign(), Some(SessionId::new(usize::MAX - 1)));
    assert_eq!(last.assign(), None);
    assert_eq!(last.assign(), None);
    assert_eq!(last.next, usize::MAX);
}

#[test]
fn registry_keeps_ids_and_names_unique() {
    let mut registry = ProtocolRegistry::new();
    assert_eq!(registry.insert(meta(0, "/ping/1.0", &["1.0.0"])), Ok(()));
    assert_eq!(registry.insert(meta(1, "/echo/1.0", &["1.0.0"])), Ok(()));
    assert_eq!(
        registry.insert(meta(1, "/other", &["1.0.0"])),
        Err(RegistryError::DuplicateId)
    );
    assert_eq!(
        registry.insert(meta(2, "/echo/1.0", &["1.0.0"])),
        Err(RegistryError::DuplicateName)
    );
    assert_eq!(
        registry.insert(meta(0, "/echo/1.0", &["1.0.0"])),
        Err(RegistryError::DuplicateId)
    );
    assert_eq!(registry.metas.len(), 2);
    assert_eq!(registry.resolve("/echo/1.0"), Some(ProtocolId::new(1)));
    assert_eq!(registry.resolve("/ping/1.0"), Some(ProtocolId::new(0)));
    assert_eq!(registry.resolve("/other"), None);
    assert_eq!(registry.find("/echo/1.0"), Some(1));
    assert_eq!(registry.find(""), None);
}

#[test]
fn highest_common_version_is_selected() {
    assert_eq!(
        select_version(&strings(&["1.0.0", "1.1.0", "2.0.0"]), &strings(&["1.1.0", "1.0.0"])),
        Some("1.1.0".to_string())
    );
    assert_eq!(
        select_version(&strings(&["2.0.0", "1.0.0"]), &strings(&["1.0.0", "2.0.0", "3.0.0"])),
        Some("2.0.0".to_string())
    );
    assert_eq!(select_version(&strings(&["1"]), &strings(&["2"])), None);
    assert_eq!(select_version(&strings(&[]), &strings(&["2"])), None);
    assert_eq!(select_version(&strings(&["2"]), &strings(&[])), None);
    assert_eq!(
        select_version(&strings(&["a", "ab", "b"]), &strings(&["ab", "a"])),
        Some("ab".to_string())
    );
}

#[test]
fn responder_answers_by_name_and_version() {
    let mut registry = ProtocolRegistry::new();
    assert_eq!(registry.insert(meta(0, "/p/0", &["0.1.0", "0.2.0"])), Ok(()));
    assert_eq!(registry.insert(meta(1, "/p/1", &["1.0.0"])), Ok(()));
    let wanted = |name: &str, versions: &[&str]| ProtocolInfo {
        name: name.to_string(),
        support_versions: strings(versions),
    };
    assert_eq!(
        respond(&registry, &wanted("/p/0", &["0.2.0", "0.1.0", "0.3.0"])),
        SelectReply::Selected { proto_id: ProtocolId::new(0), version: "0.2.0".to_string() }
    );
    assert_eq!(
        respond(&registry, &wanted("/p/1", &["1.0.0"])),
        SelectReply::Selected { proto_id: ProtocolId::new(1), version: "1.0.0".to_string() }
    );
    assert_eq!(respond(&registry, &wanted("/p/2", &["1.0.0"])), SelectReply::UnknownProtocol);
    assert_eq!(respond(&registry, &wanted("/p/1", &["2.0.0"])), SelectReply::NoCommonVersion);
}

#[test]
fn targets() {
    assert!(TargetSession::All.matches(SessionId::new(9)));
    assert!(TargetSession::Single(SessionId::new(9)).matches(SessionId::new(9)));
    assert!(!TargetSession::Single(SessionId::new(9)).matches(SessionId::new(8)));
    assert!(TargetSession::Multi(ids(&[1, 3])).matches(SessionId::new(3)));
    assert!(!TargetSession::Multi(ids(&[1, 3])).matches(SessionId::new(2)));
    assert!(!TargetSession::Multi(vec![]).matches(SessionId::new(2)));
}

#[test]
fn broadcast_reaches_every_open_session() {
    let open = ids(&[1, 2]);
    assert_eq!(recipients(&TargetSession::All, &open), open);
    assert_eq!(recipients(&TargetSession::All, &vec![]), vec![]);
    assert_eq!(recipients(&TargetSession::Single(SessionId::new(2)), &open), ids(&[2]));
    assert_eq!(recipients(&TargetSession::Single(SessionId::new(3)), &open), vec![]);
    assert_eq!(
        recipients(&TargetSession::Multi(ids(&[5, 2, 1])), &ids(&[1, 2, 3, 4])),
        ids(&[1, 2])
    );
}

#[test]
fn notify_every_five_seconds_is_due_three_times_in_sixteen() {
    let mut schedule = NotifySchedule::new(3, 5_000, 0).unwrap();
    assert_eq!(schedule.token, 3);
    assert_eq!(schedule.next_due, Some(5_000));
    assert_eq!(schedule.poll(16_000), 3);
    assert_eq!(schedule.next_due, Some(20_000));
    let mut step = NotifySchedule::new(3, 5_000, 1_000).unwrap();
    let mut total = 0;
    for now in (1_000..=17_000).step_by(100) {
        total += step.poll(now);
    }
    assert_eq!(total, 3);
}

#[test]
fn notify_schedule_counts_what_is_due() {
    let mut s = NotifySchedule::new(1, 10, 100).unwrap();
    assert_eq!(s.poll(0), 0);
    assert_eq!(s.poll(109), 0);
    assert_eq!(s.next_due, Some(110));
    assert_eq!(s.poll(110), 1);
    assert_eq!(s.next_due, Some(120));
    assert_eq!(s.poll(110), 0);
    assert_eq!(s.poll(149), 3);
    assert_eq!(s.next_due, Some(150));
    assert_eq!(NotifySchedule::new(1, 0, 7), None);
    let mut late = NotifySchedule::new(1, 10, u64::MAX - 15).unwrap();
    assert_eq!(late.next_due, Some(u64::MAX - 5));
    assert_eq!(late.poll(u64::MAX), 1);
    assert_eq!(late.next_due, None);
    assert_eq!(late.poll(u64::MAX), 0);
    let never = NotifySchedule::new(1, 10, u64::MAX - 5).unwrap();
    assert_eq!(never.next_due, None);
    let mut all = NotifySchedule { token: 0, interval: 1, next_due: Some(1) };
    assert_eq!(all.poll(u64::MAX), u64::MAX);
    assert_eq!(all.next_due, None);
}

#[test]
fn tasks_are_served_in_submission_order() {
    let mut queue = TaskQueue::new(3);
    assert!(queue.next().is_none());
    for token in [5u64, 6, 7] {
        let task = ServiceTask::ProtocolNotify { proto_id: ProtocolId::new(0), token };
        assert!(queue.submit(task).is_ok());
    }
    let extra = ServiceTask::Disconnect { session_id: SessionId::new(9) };
    match queue.submit(extra) {
        Err(Error::TaskFull(task)) => {
            assert_eq!(task.describe(), "Disconnect session [SessionId(9)]")
        }
        _ => panic!("a full queue hands the task back"),
    }
    assert_eq!(queue.tasks.len(), 3);
    for token in [5u64, 6, 7] {
        let task = queue.next().unwrap();
        assert_eq!(
            task.describe(),
            format!("protocol id: ProtocolId(0), token: {}", token)
        );
    }
    assert!(queue.next().is_none());
    let mut none = TaskQueue::new(0);
    assert!(matches!(
        none.submit(ServiceTask::Disconnect { session_id: SessionId::new(1) }),
        Err(Error::TaskFull(ServiceTask::Disconnect { .. }))
    ));
}

#[test]
fn service_stops_when_nothing_is_left_unless_forever() {
    let empty = Load { sessions: 0, listeners: 0, pending_tasks: 0, futures: 0 };
    assert!(empty.is_empty());
    let busy = [
        Load { sessions: 1, ..empty },
        Load { listeners: 1, ..empty },
        Load { pending_tasks: 1, ..empty },
        Load { futures: 1, ..empty },
    ];
    assert_eq!(ServiceState::Building.start(), ServiceState::Running);
    assert_eq!(ServiceState::Stopped.start(), ServiceState::Stopped);
    assert_eq!(ServiceState::Running.after_tick(false, &empty), ServiceState::Stopped);
    assert_eq!(ServiceState::Running.after_tick(true, &empty), ServiceState::Running);
    for load in &busy {
        assert!(!load.is_empty());
        assert_eq!(ServiceState::Running.after_tick(false, load), ServiceState::Running);
        assert_eq!(ServiceState::ShuttingDown.after_tick(true, load), ServiceState::ShuttingDown);
    }
    assert_eq!(ServiceState::Running.shutdown(), ServiceState::ShuttingDown);
    assert_eq!(ServiceState::Building.shutdown(), ServiceState::Building);
    assert_eq!(ServiceState::ShuttingDown.after_tick(true, &empty), ServiceState::Stopped);
    assert_eq!(ServiceState::Building.after_tick(false, &empty), ServiceState::Building);
    assert_eq!(ServiceState::Stopped.after_tick(false, &busy[0]), ServiceState::Stopped);
}
