use gpu_procs::correlate::link_processes_to_gpu;
use gpu_procs::gpu::GpuRegistry;
use gpu_procs::process::{is_pid, Process};

fn proc_with(pid: &str, fds: &[&str]) -> Process {
    let status = format!("Name:\tproc{}\nState:\tS\n", pid);
    Process::new(pid.to_string(), fds.iter().map(|f| f.to_string()).collect(), &status)
}

fn two_gpus() -> GpuRegistry {
    let mut r = GpuRegistry::new();
    r.add_node("bus-a".to_string(), "0x1002", "0x67df", "/dev/dri/card0".to_string(), "");
    r.add_node("bus-a".to_string(), "0x1002", "0x67df", "/dev/dri/renderD128".to_string(), "");
    r.add_node("bus-b".to_string(), "0x10de", "0x1c82", "/dev/dri/card1".to_string(), "");
    r
}

#[test]
fn unrelated_process_in_no_list() {
    let gpus = two_gpus();
    let procs = vec![proc_with("1", &["/dev/null", "socket:[1234]"])];
    let out = link_processes_to_gpu(&procs, &gpus);
    assert_eq!(out.len(), 2);
    assert!(out.iter().all(|o| o.processes.is_empty()));
}

#[test]
fn process_on_two_gpus_in_both_lists() {
    let gpus = two_gpus();
    let procs = vec![
        proc_with("1", &["/dev/null"]),
        proc_with("2", &["/dev/dri/card1", "/dev/dri/renderD128"]),
    ];
    let out = link_processes_to_gpu(&procs, &gpus);
    assert_eq!(out[0].device, 0);
    assert_eq!(out[1].device, 1);
    assert_eq!(out[0].processes, vec![1]);
    assert_eq!(out[1].processes, vec![1]);
}

#[test]
fn no_gpus_no_lists() {
    let gpus = GpuRegistry::new();
    let procs = vec![proc_with("1", &["/dev/dri/card0"]), proc_with("2", &[])];
    let out = link_processes_to_gpu(&procs, &gpus);
    assert!(out.is_empty());
}

#[test]
fn process_listed_once_per_gpu() {
    // Two descriptors on two nodes of one GPU: the process is listed once.
    let gpus = two_gpus();
    let procs = vec![
        proc_with("7", &["/dev/dri/card0", "/dev/dri/renderD128", "/dev/dri/card0"]),
        proc_with("8", &["/dev/dri/renderD128"]),
    ];
    let out = link_processes_to_gpu(&procs, &gpus);
    assert_eq!(out[0].processes, vec![0, 1]);
    assert!(out[1].processes.is_empty());
}

#[test]
fn process_name_from_status() {
    let p = Process::new(
        "42".to_string(),
        vec!["/dev/dri/card0".to_string()],
        "Umask:\t0022\nName:\tfirefox  \nState:\tS (sleeping)\n",
    );
    assert_eq!(p.get_pid(), "42");
    assert_eq!(p.get_name(), "firefox");
    assert_eq!(p.get_fds(), &["/dev/dri/card0".to_string()][..]);
}

#[test]
fn process_without_name_line() {
    let p = Process::new("1".to_string(), Vec::new(), "State:\tS\n");
    assert_eq!(p.get_name(), "");
    let p = Process::new("1".to_string(), Vec::new(), "Name\n");
    assert_eq!(p.get_name(), "");
}

#[test]
fn pid_names() {
    assert!(is_pid("1234"));
    assert!(!is_pid("self"));
    assert!(!is_pid("12a"));
    assert!(is_pid(""));
}

#[test]
fn descriptor_counts_for_first_gpu_with_node() {
    let mut gpus = GpuRegistry::new();
    gpus.add_node("bus-a".to_string(), "0x1002", "0x67df", "/dev/dri/card0".to_string(), "");
    gpus.add_node("bus-b".to_string(), "0x10de", "0x1c82", "/dev/dri/card0".to_string(), "");
    let procs = vec![proc_with("3", &["/dev/dri/card0"])];
    let out = link_processes_to_gpu(&procs, &gpus);
    assert_eq!(out[0].processes, vec![0]);
    assert!(out[1].processes.is_empty());
}
