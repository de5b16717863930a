use seneca::swarm::{
    check_all_up, check_freeze, check_resume, default_mem, freeze_state, has_process, join,
    join_path, member_resumed, one, resume_state, side, snapshot_files, state_path, status_line,
    up_report, up_state, MemberState, SwarmError, SwarmState,
};

fn member(name: &str, pid: u32) -> MemberState {
    MemberState {
        name: name.into(),
        pid,
        sock: format!("/tmp/{}.sock", name),
        snapshot: String::new(),
        mem: String::new(),
    }
}

#[test]
fn defaults() {
    assert_eq!(one(), 1);
    assert_eq!(default_mem(), 256);
}

#[test]
fn paths_join_like_pathbuf() {
    assert_eq!(state_path("/tmp/state", "good"), "/tmp/state/good.json");
    assert_eq!(state_path(".seneca", "s"), ".seneca/s.json");
    assert_eq!(state_path("dir/", "a"), "dir/a.json");
    assert_eq!(state_path("", "a"), "a.json");
    assert_eq!(state_path("dir", "/abs"), "/abs.json");
    for (base, part) in [("a", "b"), ("a/", "b"), ("", "b"), ("a", "/b"), ("a", ""), ("/", "x")] {
        let expected = std::path::Path::new(base).join(part);
        assert_eq!(join_path(base, part), expected.to_str().unwrap());
    }
    assert_eq!(side("run.log", "key"), "run.log.key");
    assert_eq!(
        snapshot_files("/s/snapshots", "a"),
        ("/s/snapshots/a.vmstate".to_string(), "/s/snapshots/a.mem".to_string())
    );
}

#[test]
fn all_or_nothing() {
    let names = vec!["a".to_string(), "b".to_string(), "c".to_string()];
    // failure: member b died -> the swarm is refused, naming b
    let r = check_all_up("broken", &names, &vec![false, true, false]);
    assert_eq!(
        r,
        Err(SwarmError::MembersDied { swarm: "broken".into(), dead: vec!["b".into()] })
    );
    assert_eq!(
        r.unwrap_err().message(),
        "swarm 'broken' failed all-or-nothing; members died: b"
    );
    let r = check_all_up("broken", &names, &vec![true, false, true]);
    assert_eq!(r.unwrap_err().message(), "swarm 'broken' failed all-or-nothing; members died: a, c");
    // success: all members alive
    assert_eq!(check_all_up("good", &names, &vec![false, false, false]), Ok(()));
    assert_eq!(up_report("good", &names), "swarm 'good' up: 3 microVMs (a, b, c)");
}

#[test]
fn freeze_state_roundtrip() {
    let running = SwarmState { name: "s".into(), frozen: false, members: vec![member("a", 123)] };
    assert!(!running.frozen && running.members[0].pid == 123);
    assert_eq!(check_resume("s", &running), Err(SwarmError::NotFrozen { name: "s".into() }));
    assert_eq!(check_freeze("s", &running), Ok(()));

    // the freeze transition's effect on state
    let frozen = freeze_state(
        running,
        vec![("/snap/a.vmstate".to_string(), "/snap/a.mem".to_string())],
    );
    assert!(frozen.frozen && frozen.members[0].pid == 0);
    assert_eq!(frozen.members[0].snapshot, "/snap/a.vmstate");
    assert_eq!(frozen.members[0].mem, "/snap/a.mem");
    assert_eq!(frozen.members[0].sock, "/tmp/a.sock");
    assert_eq!(check_freeze("s", &frozen), Err(SwarmError::AlreadyFrozen { name: "s".into() }));
    assert_eq!(check_resume("s", &frozen), Ok(()));

    // resume
    let mut resumed = resume_state(frozen);
    let m = resumed.members.remove(0);
    resumed.members.insert(0, member_resumed(m, 456, "/tmp/a2.sock".into()));
    assert!(!resumed.frozen);
    assert_eq!(resumed.members[0].pid, 456);
    assert_eq!(resumed.members[0].sock, "/tmp/a2.sock");
    assert_eq!(resumed.members[0].snapshot, "/snap/a.vmstate");
    assert_eq!(check_freeze("s", &resumed), Ok(()));
}

#[test]
fn freeze_pairs_members_with_snapshots_in_order() {
    let s = SwarmState {
        name: "x".into(),
        frozen: false,
        members: vec![member("a", 1), member("b", 2), member("c", 3)],
    };
    let f = freeze_state(s, vec![("sa".into(), "ma".into()), ("sb".into(), "mb".into())]);
    assert_eq!(f.members.len(), 3);
    assert_eq!((f.members[0].pid, f.members[0].snapshot.as_str()), (0, "sa"));
    assert_eq!((f.members[1].pid, f.members[1].mem.as_str()), (0, "mb"));
    assert_eq!(f.members[2], member("c", 3));
}

#[test]
fn status_lines() {
    let s = SwarmState { name: "s".into(), frozen: false, members: vec![member("a", 1), member("b", 0)] };
    assert_eq!(status_line(&s, &vec![true, false]), "s: 1/2 alive");
    let f = SwarmState { frozen: true, ..s.clone() };
    assert_eq!(status_line(&f, &vec![]), "s: frozen (2 snapshots)");
    assert!(has_process(5) && !has_process(0));
    assert_eq!(join(&vec!["x".into(), "y".into()], "; "), "x; y");
    assert_eq!(join(&vec![], ", "), "");
    assert_eq!(
        SwarmError::AlreadyFrozen { name: "s".into() }.message(),
        "swarm 's' is already frozen"
    );
    assert_eq!(SwarmError::NotFrozen { name: "s".into() }.message(), "swarm 's' is not frozen");
}

#[test]
fn a_swarm_just_up_runs_every_member_in_order() {
    let s = up_state(
        "lab".to_string(),
        vec!["a".to_string(), "b".to_string()],
        vec![101, 202],
        vec!["/w/a.sock".to_string(), "/w/b.sock".to_string()],
    );
    assert_eq!(s.name, "lab");
    assert!(!s.frozen);
    assert_eq!(s.members.len(), 2);
    assert_eq!(s.members[0].name, "a");
    assert_eq!(s.members[0].pid, 101);
    assert_eq!(s.members[0].sock, "/w/a.sock");
    assert_eq!(s.members[1].name, "b");
    assert_eq!(s.members[1].pid, 202);
    assert_eq!(s.members[1].sock, "/w/b.sock");
    assert!(s.members.iter().all(|m| m.snapshot.is_empty() && m.mem.is_empty()));
}
