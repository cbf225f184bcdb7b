use aether::master::{
    normalize_peer_address, process_thief_match, worker_port_or_default, AetherMaster,
    SchedulerAction,
};
use aether::protocol::TaskRequest;
use aether::registry::{WorkerRegistry, WorkerState, MIN_SCHEDULABLE_CAPACITY};
use aether::task::TarefaPendente;

fn key(score: f32) -> u32 {
    score.to_bits()
}

fn heartbeat(m: &mut AetherMaster, id: &str, port: u32, score: f32, now: u64) -> bool {
    let (ack, is_new) = m.send_heartbeat(
        id.to_string(),
        Some("10.0.0.7".to_string()),
        port,
        key(score),
        now,
    );
    assert!(ack.acknowledged);
    is_new
}

fn queue_ids(m: &AetherMaster) -> Vec<String> {
    (0..m.fila_tarefas.len()).map(|i| m.fila_tarefas.get(i).id.clone()).collect()
}

#[test]
fn threshold_key_is_thirty() {
    assert_eq!(MIN_SCHEDULABLE_CAPACITY, 30.0f32.to_bits());
}

#[test]
fn peer_address_is_normalized() {
    assert_eq!(normalize_peer_address(None), "127.0.0.1");
    assert_eq!(normalize_peer_address(Some("::1".to_string())), "127.0.0.1");
    assert_eq!(normalize_peer_address(Some("192.168.1.9".to_string())), "192.168.1.9");
}

#[test]
fn reported_port_zero_means_default() {
    assert_eq!(worker_port_or_default(0), 50052);
    assert_eq!(worker_port_or_default(50060), 50060);
}

#[test]
fn first_heartbeat_queues_initial_tasks_once() {
    let mut m = AetherMaster::new();
    assert!(heartbeat(&mut m, "w1", 0, 80.0, 1000));
    assert_eq!(queue_ids(&m), vec!["task_01_sysinfo", "task_02_heavy_math"]);
    let heavy = m.fila_tarefas.get(1);
    assert_eq!(heavy.comando_base, "pipeline_matematico");
    assert_eq!(heavy.sub_lotes.len(), 3);
    assert_eq!(heavy.lotes_concluidos, 0);
    assert!(heavy.sub_lotes[1].starts_with("echo 'Lote 2/3'"));
    // A second heartbeat of the same worker updates it and queues nothing.
    assert!(!heartbeat(&mut m, "w1", 7000, 50.0, 2000));
    assert_eq!(m.fila_tarefas.len(), 2);
    assert_eq!(m.workers.len(), 1);
    let (id, state) = m.workers.get(0);
    assert_eq!(id, "w1");
    assert_eq!(state.port, 7000);
    assert_eq!(state.last_seen_ms, 2000);
    assert_eq!(state.capacidade, key(50.0));
    assert_eq!(state.ip_address, "10.0.0.7");
    // Another worker queues them again.
    assert!(heartbeat(&mut m, "w2", 0, 80.0, 2000));
    assert_eq!(m.fila_tarefas.len(), 4);
    assert_eq!(m.workers.get(1).1.port, 50052);
}

#[test]
fn injected_task_is_acknowledged_and_queued() {
    let mut m = AetherMaster::new();
    let resp = m.inject_task(TaskRequest {
        task_id: "manual_cli".to_string(),
        command: "ls -la".to_string(),
        payload: vec![],
    });
    assert_eq!(resp.task_id, "manual_cli");
    assert_eq!(resp.exit_code, 0);
    assert_eq!(resp.stdout, "Tarefa enfileirada no Master com sucesso!\n");
    assert_eq!(resp.stderr, "");
    let t = m.fila_tarefas.get(0);
    assert_eq!(t.id, "client_manual_cli");
    assert_eq!(t.comando_base, "ls -la");
    assert_eq!(t.sub_lotes, vec!["ls -la".to_string()]);
    assert_eq!(t.lotes_concluidos, 0);
}

#[test]
fn schedule_without_tasks_is_idle() {
    let mut m = AetherMaster::new();
    heartbeat(&mut m, "w1", 0, 80.0, 0);
    let _ = m.schedule_next();
    let _ = m.schedule_next();
    let _ = m.schedule_next();
    let _ = m.schedule_next();
    assert_eq!(m.fila_tarefas.len(), 0);
    assert!(matches!(m.schedule_next(), SchedulerAction::Idle));
}

#[test]
fn schedule_rotates_sub_batches_round_robin() {
    let mut m = AetherMaster::new();
    heartbeat(&mut m, "w1", 50053, 80.0, 0);
    // sysinfo task: one sub-batch, leaves the queue.
    match m.schedule_next() {
        SchedulerAction::Dispatch(d) => {
            assert_eq!(d.task_id, "task_01_sysinfo");
            assert_eq!(d.command, "uname -a && uptime");
            assert_eq!(d.worker_id, "w1");
            assert_eq!(d.worker_ip, "10.0.0.7");
            assert_eq!(d.worker_port, 50053);
            assert_eq!(d.capacidade, key(80.0));
        }
        _ => panic!("expected a dispatch"),
    }
    assert_eq!(queue_ids(&m), vec!["task_02_heavy_math"]);
    // heavy math: first sub-batch out, task goes to the back with two left.
    match m.schedule_next() {
        SchedulerAction::Dispatch(d) => assert!(d.command.starts_with("echo 'Lote 1/3'")),
        _ => panic!("expected a dispatch"),
    }
    let t = m.fila_tarefas.get(0);
    assert_eq!(t.sub_lotes.len(), 2);
    assert_eq!(t.lotes_concluidos, 1);
    assert_eq!(t.sub_lotes.len() + t.lotes_concluidos, 3);
}

#[test]
fn schedule_without_workers_requeues_at_front() {
    let mut m = AetherMaster::new();
    m.inject_task(TaskRequest { task_id: "a".to_string(), command: "echo a".to_string(), payload: vec![] });
    m.inject_task(TaskRequest { task_id: "b".to_string(), command: "echo b".to_string(), payload: vec![] });
    assert!(matches!(m.schedule_next(), SchedulerAction::Requeued));
    let t = m.fila_tarefas.get(0);
    assert_eq!(t.id, "client_a");
    assert_eq!(t.comando_base, "resgate");
    assert_eq!(t.sub_lotes, vec!["echo a".to_string()]);
    assert_eq!(m.fila_tarefas.get(1).id, "client_b");
    assert_eq!(m.fila_tarefas.len(), 2);
}

#[test]
fn overloaded_workers_get_no_work() {
    let mut m = AetherMaster::new();
    m.inject_task(TaskRequest { task_id: "a".to_string(), command: "echo a".to_string(), payload: vec![] });
    // Exactly 30 is not enough.
    heartbeat(&mut m, "hot", 0, 30.0, 0);
    let before = m.fila_tarefas.len();
    assert!(matches!(m.schedule_next(), SchedulerAction::Requeued));
    assert!(m.fila_tarefas.len() >= before);
}

#[test]
fn best_worker_is_highest_capacity_first_of_equals() {
    let mut r = WorkerRegistry::new();
    let st = |c: f32| WorkerState { ip_address: "h".to_string(), port: 1, last_seen_ms: 0, capacidade: key(c) };
    assert_eq!(r.best(), None);
    r.upsert("a".to_string(), st(20.0));
    assert_eq!(r.best(), None);
    r.upsert("b".to_string(), st(60.0));
    r.upsert("c".to_string(), st(90.5));
    r.upsert("d".to_string(), st(90.5));
    assert_eq!(r.best(), Some(2));
    r.upsert("b".to_string(), st(100.0));
    assert_eq!(r.best(), Some(1));
    assert_eq!(r.position(&"d".to_string()), Some(3));
    assert_eq!(r.position(&"z".to_string()), None);
}

#[test]
fn dispatch_failure_puts_batch_at_back() {
    let mut m = AetherMaster::new();
    m.inject_task(TaskRequest { task_id: "a".to_string(), command: "echo a".to_string(), payload: vec![] });
    m.inject_task(TaskRequest { task_id: "b".to_string(), command: "echo b".to_string(), payload: vec![] });
    heartbeat(&mut m, "w", 0, 99.0, 0);
    let d = match m.schedule_next() {
        SchedulerAction::Dispatch(d) => d,
        _ => panic!("expected a dispatch"),
    };
    // the worker queued its two initial tasks after the two injected ones
    assert_eq!(m.fila_tarefas.len(), 3);
    m.dispatch_failed(d.task_id, d.command);
    assert_eq!(m.fila_tarefas.len(), 4);
    let last = m.fila_tarefas.get(3);
    assert_eq!(last.id, "client_a");
    assert_eq!(last.comando_base, "resgate");
    assert_eq!(last.sub_lotes, vec!["echo a".to_string()]);
}

#[test]
fn reaper_removes_only_silent_workers() {
    let mut m = AetherMaster::new();
    heartbeat(&mut m, "old", 0, 80.0, 1_000);
    heartbeat(&mut m, "edge", 0, 80.0, 2_001);
    heartbeat(&mut m, "new", 0, 80.0, 5_000);
    heartbeat(&mut m, "future", 0, 80.0, 20_000);
    // at 9_000: old silent 8 s, edge 6.999 s (6 whole seconds), new 4 s
    let removed = m.reap_workers(9_000);
    assert_eq!(removed, vec!["old".to_string()]);
    assert_eq!(m.workers.len(), 3);
    assert_eq!(m.workers.get(0).0, "edge");
    let again = m.reap_workers(9_000);
    assert!(again.is_empty());
    let removed = m.reap_workers(9_001);
    assert_eq!(removed, vec!["edge".to_string()]);
    assert_eq!(m.workers.get(1).0, "future");
}

#[test]
fn process_thief_matches_targets_case_insensitively() {
    assert_eq!(process_thief_match("FFmpeg"), Some("ffmpeg".to_string()));
    assert_eq!(process_thief_match("stress-ng"), Some("stress-ng".to_string()));
    assert_eq!(process_thief_match("OpenSSL speed"), Some("openssl speed".to_string()));
    assert_eq!(process_thief_match("bash"), None);
    let mut m = AetherMaster::new();
    m.enqueue_stolen(&"stress-ng".to_string(), "4242");
    let t = m.fila_tarefas.get(0);
    assert_eq!(t.id, "thief_stress-ng_4242");
    assert_eq!(t.comando_base, "stress-ng");
    assert_eq!(t.sub_lotes, vec!["stress-ng".to_string()]);
}

#[test]
fn task_constructors() {
    let t = TarefaPendente::rescue("x".to_string(), "cmd".to_string());
    assert_eq!(t.comando_base, "resgate");
    assert_eq!(t.lotes_concluidos, 0);
    let t = TarefaPendente::from_client(&"7".to_string(), &"echo".to_string());
    assert_eq!(t.id, "client_7");
}

#[test]
fn sub_batches_of_a_task_leave_in_order() {
    let mut m = AetherMaster::new();
    let mut lotes = Vec::new();
    for c in ["one", "two", "three"] {
        lotes.push(c.to_string());
    }
    m.fila_tarefas.push_back(TarefaPendente {
        id: "t".to_string(),
        comando_base: "base".to_string(),
        sub_lotes: lotes,
        lotes_concluidos: 0,
    });
    heartbeat(&mut m, "w", 0, 99.0, 0);
    // the worker's initial tasks sit behind "t"; "t" goes round between them
    let mut from_t = Vec::new();
    for _ in 0..6 {
        if let SchedulerAction::Dispatch(d) = m.schedule_next() {
            if d.task_id == "t" {
                from_t.push(d.command);
            }
        }
    }
    assert_eq!(from_t, vec!["one", "two", "three"]);
}

#[test]
fn pending_count_is_conserved_across_requeue() {
    let mut m = AetherMaster::new();
    let mut lotes = Vec::new();
    lotes.push("a".to_string());
    lotes.push("b".to_string());
    m.fila_tarefas.push_back(TarefaPendente {
        id: "t".to_string(),
        comando_base: "base".to_string(),
        sub_lotes: lotes,
        lotes_concluidos: 0,
    });
    assert!(matches!(m.schedule_next(), SchedulerAction::Requeued));
    // rescue of "a" at the front, "t" with "b" behind it
    assert_eq!(m.fila_tarefas.get(0).sub_lotes, vec!["a".to_string()]);
    assert_eq!(m.fila_tarefas.get(1).sub_lotes, vec!["b".to_string()]);
    assert_eq!(m.fila_tarefas.get(1).lotes_concluidos, 1);
}
