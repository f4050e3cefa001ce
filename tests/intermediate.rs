use bootstrap::channel::{init_stage_closes, Endpoint, Message};
use bootstrap::intermediate::{
    apply_cgroups, plan_steps, Action, BootstrapError, CgroupCall, ContainerArgs, Event,
    Intermediate, Status, Step,
};
use bootstrap::namespaces::{LinuxNamespace, LinuxNamespaceType, Namespaces};
use bootstrap::pids::{LinuxPids, LinuxResources};
use procfs::process::Process;

fn own_pid() -> i32 {
    Process::myself().expect("read own process").pid()
}

fn default_resources() -> LinuxResources {
    LinuxResources { pids: None }
}

#[test]
fn apply_cgroup_init() {
    let resources = default_resources();
    let calls = apply_cgroups(own_pid(), Some(&resources), true);
    let add_task_args: Vec<i32> = calls
        .iter()
        .filter_map(|c| match c {
            CgroupCall::AddTask(p) => Some(*p),
            _ => None,
        })
        .collect();
    assert!(add_task_args.len() == 1);
    assert_eq!(add_task_args[0], own_pid());
    assert!(calls.iter().any(|c| matches!(c, CgroupCall::Apply(_))));
}

#[test]
fn apply_cgroup_tenant() {
    let resources = default_resources();
    let calls = apply_cgroups(own_pid(), Some(&resources), false);
    assert_eq!(calls[0], CgroupCall::AddTask(own_pid()));
    assert!(!calls.iter().any(|c| matches!(c, CgroupCall::Apply(_))));
}

#[test]
fn apply_cgroup_no_resources() {
    let calls = apply_cgroups(own_pid(), None, true);
    assert_eq!(calls[0], CgroupCall::AddTask(own_pid()));
    assert!(!calls.iter().any(|c| matches!(c, CgroupCall::Apply(_))));
}

#[test]
fn apply_carries_the_limits() {
    let resources = LinuxResources { pids: Some(LinuxPids { limit: 9 }) };
    let calls = apply_cgroups(5, Some(&resources), true);
    assert_eq!(calls.len(), 2);
    match calls[1] {
        CgroupCall::Apply(opt) => {
            assert_eq!(opt.resources, resources);
            assert_eq!(opt.freezer_state, None);
            assert_eq!(opt.oom_score_adj, None);
            assert!(!opt.disable_oom_killer);
        }
        _ => panic!("expected a limit push"),
    }
}

fn ns(typ: LinuxNamespaceType, path: Option<&str>) -> LinuxNamespace {
    LinuxNamespace { typ, path: path.map(|p| p.to_string()) }
}

fn args(list: Vec<LinuxNamespace>, rlimits: usize, resources: bool, init: bool, rootless: bool) -> ContainerArgs {
    ContainerArgs {
        namespaces: Namespaces::new(Some(list)),
        rlimit_count: rlimits,
        resources: if resources { Some(LinuxResources { pids: Some(LinuxPids { limit: 10 }) }) } else { None },
        init,
        rootless,
    }
}

#[test]
fn namespaces_last_entry_stands() {
    let set = Namespaces::new(Some(vec![
        ns(LinuxNamespaceType::Pid, None),
        ns(LinuxNamespaceType::Network, None),
        ns(LinuxNamespaceType::Pid, Some("/proc/1/ns/pid")),
    ]));
    let p = set.get(LinuxNamespaceType::Pid).expect("pid namespace");
    assert_eq!(p.path.as_deref(), Some("/proc/1/ns/pid"));
    assert!(set.get(LinuxNamespaceType::User).is_none());
    assert!(Namespaces::new(None).get(LinuxNamespaceType::Pid).is_none());
}

#[test]
fn plan_with_new_user_namespace() {
    let a = args(
        vec![ns(LinuxNamespaceType::User, None), ns(LinuxNamespaceType::Pid, None)],
        2,
        true,
        true,
        false,
    );
    let steps = plan_steps(&a);
    let expected = vec![
        Step::EnterNamespace(LinuxNamespaceType::User),
        Step::SetDumpable(true),
        Step::SendMappingRequest,
        Step::AwaitMappingAck,
        Step::SetDumpable(false),
        Step::SetRootIdentity,
        Step::SetRlimit(0),
        Step::SetRlimit(1),
        Step::EnterNamespace(LinuxNamespaceType::Pid),
        Step::QueryOwnPid,
        Step::AddTask,
        Step::ApplyResources,
        Step::CreateInitChannel,
        Step::ForkInit,
        Step::Close(Endpoint::IntermediateSender),
        Step::Close(Endpoint::InitSender),
        Step::AwaitInitReady,
        Step::NotifyMain,
    ];
    assert_eq!(steps, expected);
}

#[test]
fn plan_joining_user_namespace_rootless_tenant() {
    let a = args(vec![ns(LinuxNamespaceType::User, Some("/proc/9/ns/user"))], 0, true, false, true);
    let steps = plan_steps(&a);
    let expected = vec![
        Step::EnterNamespace(LinuxNamespaceType::User),
        Step::SetRootIdentity,
        Step::CreateInitChannel,
        Step::ForkInit,
        Step::Close(Endpoint::IntermediateSender),
        Step::Close(Endpoint::InitSender),
        Step::AwaitInitReady,
        Step::NotifyMain,
    ];
    assert_eq!(steps, expected);
}

#[test]
fn plan_tenant_joins_cgroup_without_limits() {
    let a = args(vec![], 0, true, false, false);
    let steps = plan_steps(&a);
    assert_eq!(steps.iter().filter(|s| **s == Step::AddTask).count(), 1);
    assert!(!steps.contains(&Step::ApplyResources));
    assert!(!steps.iter().any(|s| matches!(s, Step::SetDumpable(_))));
}

fn run(m: &mut Intermediate, outcomes: &[Event]) -> Vec<Action> {
    let mut actions = Vec::new();
    for e in outcomes {
        assert!(m.is_running());
        actions.push(m.action());
        m.step(*e);
    }
    actions
}

#[test]
fn full_run_with_handshake() {
    let a = args(
        vec![ns(LinuxNamespaceType::User, None), ns(LinuxNamespaceType::Pid, None)],
        1,
        true,
        true,
        false,
    );
    let mut m = Intermediate::new(&a);
    let outcomes = [
        Event::Done,
        Event::Done,
        Event::Done,
        Event::Received(Message::MappingAck),
        Event::Done,
        Event::Done,
        Event::Done,
        Event::Done,
        Event::Pid(300),
        Event::Done,
        Event::Done,
        Event::Done,
        Event::Pid(4000),
        Event::Done,
        Event::Done,
        Event::Received(Message::InitReady(1)),
        Event::Done,
    ];
    let actions = run(&mut m, &outcomes);
    assert_eq!(m.status, Status::Done);
    assert_eq!(actions[1], Action::SetDumpable(true));
    assert_eq!(actions[2], Action::SendToMain(Message::IdentifierMappingRequest));
    assert_eq!(actions[3], Action::Receive);
    assert_eq!(actions[4], Action::SetDumpable(false));
    assert_eq!(actions[5], Action::SetId { uid: 0, gid: 0 });
    assert_eq!(actions[9], Action::Cgroup(CgroupCall::AddTask(300)));
    assert_eq!(actions[12], Action::ForkInit);
    // the pid that init reported, not the one that the fork returned
    assert_eq!(actions[16], Action::SendToMain(Message::IntermediateReady(1)));
}

#[test]
fn wrong_message_is_a_protocol_error() {
    let a = args(vec![ns(LinuxNamespaceType::User, None)], 0, false, true, true);
    let mut m = Intermediate::new(&a);
    run(&mut m, &[Event::Done, Event::Done, Event::Done]);
    m.step(Event::Received(Message::InitReady(3)));
    assert_eq!(m.status, Status::Failed(BootstrapError::Protocol));
    assert!(!m.is_running());
}

#[test]
fn failures_name_the_step() {
    let a = args(vec![ns(LinuxNamespaceType::Pid, None)], 3, false, true, false);
    let mut m = Intermediate::new(&a);
    run(&mut m, &[Event::Done]);
    m.step(Event::Failed);
    assert_eq!(m.status, Status::Failed(BootstrapError::Rlimit(1)));

    let mut m = Intermediate::new(&a);
    run(&mut m, &[Event::Done, Event::Done, Event::Done]);
    m.step(Event::Failed);
    assert_eq!(m.status, Status::Failed(BootstrapError::Namespace(LinuxNamespaceType::Pid)));

    let a = args(vec![], 0, false, true, true);
    let mut m = Intermediate::new(&a);
    run(&mut m, &[Event::Done]);
    m.step(Event::Failed);
    assert_eq!(m.status, Status::Failed(BootstrapError::Fork));

    let mut m = Intermediate::new(&a);
    run(&mut m, &[Event::Done, Event::Pid(8)]);
    m.step(Event::Failed);
    assert_eq!(m.status, Status::Failed(BootstrapError::Channel));

    let a = args(vec![ns(LinuxNamespaceType::User, None)], 0, false, true, true);
    let mut m = Intermediate::new(&a);
    run(&mut m, &[Event::Done, Event::Done]);
    m.step(Event::Failed);
    assert_eq!(m.status, Status::Failed(BootstrapError::Handshake));

    let a = args(vec![ns(LinuxNamespaceType::User, Some("/u"))], 0, false, true, true);
    let mut m = Intermediate::new(&a);
    run(&mut m, &[Event::Done]);
    m.step(Event::Failed);
    assert_eq!(m.status, Status::Failed(BootstrapError::Identity));

    let a = args(vec![], 0, true, true, false);
    let mut m = Intermediate::new(&a);
    run(&mut m, &[Event::Pid(2), Event::Done]);
    m.step(Event::Failed);
    assert_eq!(m.status, Status::Failed(BootstrapError::Cgroup));
}

#[test]
fn init_stage_closes_its_unused_ends() {
    assert_eq!(init_stage_closes(), vec![Endpoint::InitSender, Endpoint::MainSender]);
}
