use aether::cli::{client_request, endpoint_url, listen_address, ClientError};
use aether::worker::{processor_sensor, worker_id_from_hostname, worker_listen_port, AetherWorker, CommandExit};

#[test]
fn output_line_reply() {
    let w = AetherWorker::new();
    let r = w.output_response(&"t1".to_string(), "hello");
    assert_eq!(r.task_id, "t1");
    assert_eq!(r.exit_code, 0);
    assert_eq!(r.stdout, "hello\n");
    assert_eq!(r.stderr, "");
}

#[test]
fn completion_reply_codes() {
    let w = AetherWorker::new();
    let r = w.completion_response("t".to_string(), CommandExit::Exited(3));
    assert_eq!(r.exit_code, 3);
    assert_eq!(r.stdout, "[WORKER] --- Micro-lote finalizado ---\n");
    assert_eq!(w.completion_response("t".to_string(), CommandExit::NoCode).exit_code, 0);
    assert_eq!(w.completion_response("t".to_string(), CommandExit::WaitFailed).exit_code, -1);
}

#[test]
fn launch_failure_text() {
    let w = AetherWorker::new();
    assert_eq!(w.launch_failure_message("No such file"), "Falha ao lançar comando: No such file");
}

#[test]
fn sensor_choice() {
    let labels = vec!["acpitz temp1".to_string(), "Package id 0".to_string(), "Core 0".to_string(), "CPU".to_string()];
    assert_eq!(processor_sensor(&labels), Some(2));
    let labels = vec!["amdgpu edge".to_string(), "k10temp Tctl".to_string()];
    assert_eq!(processor_sensor(&labels), None);
    assert_eq!(processor_sensor(&vec!["Tccd1 cpu".to_string()]), Some(0));
}

#[test]
fn hostname_id() {
    assert_eq!(worker_id_from_hostname(Some("  node-7\n".to_string())), "node-7");
    assert_eq!(worker_id_from_hostname(None), "unknown_worker");
}

#[test]
fn ports_and_addresses() {
    assert_eq!(worker_listen_port(50051), 50052);
    assert_eq!(endpoint_url("127.0.0.1", 50051), "http://127.0.0.1:50051");
    assert_eq!(endpoint_url("10.1.2.3", 0), "http://10.1.2.3:0");
    assert_eq!(listen_address(4294967295), "0.0.0.0:4294967295");
}

#[test]
fn client_request_needs_command() {
    assert!(matches!(client_request(String::new()), Err(ClientError::MissingCommand)));
    let r = client_request("uptime".to_string()).ok().unwrap();
    assert_eq!(r.task_id, "manual_cli");
    assert_eq!(r.command, "uptime");
    assert!(r.payload.is_empty());
}
