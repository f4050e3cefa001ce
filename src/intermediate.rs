use vstd::prelude::*;

use crate::channel::{Endpoint, Message};
use crate::namespaces::{last_index_of, LinuxNamespace, LinuxNamespaceType, Namespaces};
use crate::pids::LinuxResources;

verus! {

/// The freezer state that a cgroup apply may request.
#[derive(Clone, Copy, Debug, PartialEq, Eq, Structural)]
pub enum FreezerState {
    Undefined,
    Frozen,
    Thawed,
}

/// The parameters of one push of resource limits through a cgroup manager.
#[derive(Clone, Copy, Debug, PartialEq, Eq, Structural)]
pub struct ControllerOpt {
    pub resources: LinuxResources,
    pub freezer_state: Option<FreezerState>,
    pub oom_score_adj: Option<i32>,
    pub disable_oom_killer: bool,
}

/// A call into the cgroup manager.
#[derive(Clone, Copy, Debug, PartialEq, Eq, Structural)]
pub enum CgroupCall {
    /// Attach a process to the manager's cgroup.
    AddTask(i32),
    /// Push resource limits through every controller of the manager.
    Apply(ControllerOpt),
}

/// The options of the limit push made when a container is created.
pub open spec fn creation_opt(resources: LinuxResources) -> ControllerOpt {
    ControllerOpt {
        resources: resources,
        freezer_state: None,
        oom_score_adj: None,
        disable_oom_killer: false,
    }
}

/// The calls that attach process `pid` to the cgroup: it always joins the
/// group, and the limits are pushed only for the initial creation of a
/// container that has limits; a tenant process joins without pushing them.
pub open spec fn cgroup_calls(pid: i32, resources: Option<LinuxResources>, init: bool) -> Seq<CgroupCall> {
    match resources {
        Some(r) => if init {
            seq![CgroupCall::AddTask(pid), CgroupCall::Apply(creation_opt(r))]
        } else {
            seq![CgroupCall::AddTask(pid)]
        },
        None => seq![CgroupCall::AddTask(pid)],
    }
}

/// The cgroup manager calls, in order, for process `pid`.
pub fn apply_cgroups(pid: i32, resources: Option<&LinuxResources>, init: bool) -> (r: Vec<CgroupCall>)
    ensures
        r@ == cgroup_calls(pid, match resources { Some(x) => Some(*x), None => None }, init),
{
    let mut r: Vec<CgroupCall> = Vec::new();
    r.push(CgroupCall::AddTask(pid));
    match resources {
        Some(x) => {
            if init {
                let opt = ControllerOpt {
                    resources: *x,
                    freezer_state: None,
                    oom_score_adj: None,
                    disable_oom_killer: false,
                };
                r.push(CgroupCall::Apply(opt));
            }
        },
        None => {},
    }
    assert(r@ =~= cgroup_calls(pid, match resources { Some(x) => Some(*x), None => None }, init));
    r
}

/// A process joins the cgroup exactly once per attachment, whether or not
/// limits are present.
pub proof fn lemma_add_task_once(pid: i32, resources: Option<LinuxResources>, init: bool)
    ensures
        cgroup_calls(pid, resources, init)[0] == CgroupCall::AddTask(pid),
        forall|j: int|
            0 < j < cgroup_calls(pid, resources, init).len() ==> !(#[trigger] cgroup_calls(
                pid,
                resources,
                init,
            )[j] is AddTask),
{
}

/// Limits are pushed if and only if this is the initial creation and the
/// container has limits; then with exactly those limits.
pub proof fn lemma_apply_iff_init_with_resources(pid: i32, resources: Option<LinuxResources>, init: bool)
    ensures
        (exists|j: int|
            0 <= j < cgroup_calls(pid, resources, init).len() && #[trigger] cgroup_calls(
                pid,
                resources,
                init,
            )[j] is Apply) <==> (init && resources.is_some()),
        forall|j: int|
            0 <= j < cgroup_calls(pid, resources, init).len() && #[trigger] cgroup_calls(
                pid,
                resources,
                init,
            )[j] is Apply ==> cgroup_calls(pid, resources, init)[j] == CgroupCall::Apply(
                creation_opt(resources.unwrap()),
            ),
{
    if init && resources.is_some() {
        assert(cgroup_calls(pid, resources, init)[1] is Apply);
    }
}

/// What the intermediate stage reads of a container-creation request.
pub struct ContainerArgs {
    /// The namespaces that the specification requests.
    pub namespaces: Namespaces,
    /// How many rlimits the specification's process configuration lists.
    pub rlimit_count: usize,
    /// The resource limits of the specification, if any.
    pub resources: Option<LinuxResources>,
    /// The initial creation of a container, rather than a process that joins
    /// a running one.
    pub init: bool,
    /// Whether a privileged process outside this pipeline attaches the cgroup.
    pub rootless: bool,
}

/// One step of the intermediate stage.
#[derive(Clone, Copy, Debug, PartialEq, Eq, Structural)]
pub enum Step {
    /// Join the requested namespace of that kind by its path, or create one.
    EnterNamespace(LinuxNamespaceType),
    /// Set or clear the process's dumpable flag.
    SetDumpable(bool),
    /// Ask the main process to write the uid/gid maps.
    SendMappingRequest,
    /// Block until the main process acknowledges the maps.
    AwaitMappingAck,
    /// Become root (uid 0, gid 0) inside the user namespace.
    SetRootIdentity,
    /// Apply the rlimit at that position of the process configuration.
    SetRlimit(usize),
    /// Learn this process's own pid.
    QueryOwnPid,
    /// Attach this process to the cgroup.
    AddTask,
    /// Push the resource limits through the cgroup manager.
    ApplyResources,
    /// Create the channel whose reader is the init stage.
    CreateInitChannel,
    /// Fork the init process, which first closes the ends it does not use.
    ForkInit,
    /// Close this process's copy of a channel end.
    Close(Endpoint),
    /// Block until the init process reports that it is ready.
    AwaitInitReady,
    /// Tell the main process that the init process is ready.
    NotifyMain,
}

/// The requested namespace of kind `t` in `s`, if any.
pub open spec fn requested(s: Seq<LinuxNamespace>, t: LinuxNamespaceType) -> Option<LinuxNamespace> {
    match last_index_of(s, t, s.len() as int) {
        Some(i) => Some(s[i]),
        None => None,
    }
}

/// Entering the user namespace: when it is created anew, the uid/gid mapping
/// handshake with the main process follows; either way the process then
/// becomes root inside it.
pub open spec fn user_steps(user: Option<LinuxNamespace>) -> Seq<Step> {
    match user {
        None => seq![],
        Some(u) => if u.path.is_none() {
            seq![
                Step::EnterNamespace(LinuxNamespaceType::User),
                Step::SetDumpable(true),
                Step::SendMappingRequest,
                Step::AwaitMappingAck,
                Step::SetDumpable(false),
                Step::SetRootIdentity,
            ]
        } else {
            seq![Step::EnterNamespace(LinuxNamespaceType::User), Step::SetRootIdentity]
        },
    }
}

/// The rlimits, one at a time, in specification order.
pub open spec fn rlimit_steps(n: nat) -> Seq<Step> {
    Seq::new(n, |i: int| Step::SetRlimit(i as usize))
}

pub open spec fn pid_steps(requested: bool) -> Seq<Step> {
    if requested {
        seq![Step::EnterNamespace(LinuxNamespaceType::Pid)]
    } else {
        seq![]
    }
}

/// Cgroup attachment, skipped in rootless mode.
pub open spec fn attach_steps(rootless: bool, has_resources: bool, init: bool) -> Seq<Step> {
    if rootless {
        seq![]
    } else if has_resources && init {
        seq![Step::QueryOwnPid, Step::AddTask, Step::ApplyResources]
    } else {
        seq![Step::QueryOwnPid, Step::AddTask]
    }
}

/// The fork of the init stage and the relay of its readiness.
pub open spec fn fork_steps() -> Seq<Step> {
    seq![
        Step::CreateInitChannel,
        Step::ForkInit,
        Step::Close(Endpoint::IntermediateSender),
        Step::Close(Endpoint::InitSender),
        Step::AwaitInitReady,
        Step::NotifyMain,
    ]
}

/// The steps before the fork.
pub open spec fn setup_steps(args: ContainerArgs) -> Seq<Step> {
    user_steps(requested(args.namespaces.entries@, LinuxNamespaceType::User)).add(
        rlimit_steps(args.rlimit_count as nat),
    ).add(pid_steps(requested(args.namespaces.entries@, LinuxNamespaceType::Pid).is_some())).add(
        attach_steps(args.rootless, args.resources.is_some(), args.init),
    )
}

/// Every step of the intermediate stage, in the order in which it runs them.
pub open spec fn intermediate_steps(args: ContainerArgs) -> Seq<Step> {
    setup_steps(args).add(fork_steps())
}

/// The steps that the intermediate stage runs for `args`, in order.
pub fn plan_steps(args: &ContainerArgs) -> (r: Vec<Step>)
    ensures
        r@ == intermediate_steps(*args),
{
    let ghost entries = args.namespaces.entries@;
    let mut r: Vec<Step> = Vec::new();
    match args.namespaces.get(LinuxNamespaceType::User) {
        Some(u) => {
            r.push(Step::EnterNamespace(LinuxNamespaceType::User));
            if u.path.is_none() {
                r.push(Step::SetDumpable(true));
                r.push(Step::SendMappingRequest);
                r.push(Step::AwaitMappingAck);
                r.push(Step::SetDumpable(false));
            }
            r.push(Step::SetRootIdentity);
        },
        None => {},
    }
    let ghost user = user_steps(requested(entries, LinuxNamespaceType::User));
    assert(r@ =~= user);
    let mut i: usize = 0;
    while i < args.rlimit_count
        invariant
            i <= args.rlimit_count,
            r@ == user.add(rlimit_steps(i as nat)),
        decreases args.rlimit_count - i,
    {
        r.push(Step::SetRlimit(i));
        i = i + 1;
        assert(r@ =~= user.add(rlimit_steps(i as nat)));
    }
    if args.namespaces.get(LinuxNamespaceType::Pid).is_some() {
        r.push(Step::EnterNamespace(LinuxNamespaceType::Pid));
    }
    if !args.rootless {
        r.push(Step::QueryOwnPid);
        r.push(Step::AddTask);
        if args.resources.is_some() && args.init {
            r.push(Step::ApplyResources);
        }
    }
    assert(r@ =~= setup_steps(*args));
    r.push(Step::CreateInitChannel);
    r.push(Step::ForkInit);
    r.push(Step::Close(Endpoint::IntermediateSender));
    r.push(Step::Close(Endpoint::InitSender));
    r.push(Step::AwaitInitReady);
    r.push(Step::NotifyMain);
    assert(r@ =~= intermediate_steps(*args));
    r
}

/// Why the bootstrap of a container failed, with the operation and the
/// resource that it concerned.
#[derive(Clone, Copy, Debug, PartialEq, Eq, Structural)]
pub enum BootstrapError {
    /// Joining or creating a namespace of that kind failed.
    Namespace(LinuxNamespaceType),
    /// A step of the uid/gid mapping handshake failed.
    Handshake,
    /// Becoming root inside the user namespace failed.
    Identity,
    /// Applying the rlimit at that position failed.
    Rlimit(usize),
    /// Attaching to the cgroup or pushing its limits failed.
    Cgroup,
    /// Forking the init process failed.
    Fork,
    /// Creating, using or closing a channel failed.
    Channel,
    /// A counterpart sent a message that this point of the protocol does not
    /// expect, or an outcome did not fit the step.
    Protocol,
}

/// What the intermediate process does next.
#[derive(Clone, Copy, Debug, PartialEq, Eq, Structural)]
pub enum Action {
    /// Join the namespace of that kind by its path, or create a new one.
    EnterNamespace(LinuxNamespaceType),
    SetDumpable(bool),
    /// Send a message to the main process.
    SendToMain(Message),
    /// Block on this stage's receiver for the next message.
    Receive,
    SetId { uid: u32, gid: u32 },
    SetRlimit(usize),
    QueryOwnPid,
    Cgroup(CgroupCall),
    CreateInitChannel,
    ForkInit,
    Close(Endpoint),
}

/// The outcome of an action, as the process that ran it observed it.
#[derive(Clone, Copy, Debug, PartialEq, Eq, Structural)]
pub enum Event {
    /// The action succeeded and returned nothing.
    Done,
    /// The action failed.
    Failed,
    /// The action returned a pid: this process's own, or the forked child's.
    Pid(i32),
    /// A message arrived.
    Received(Message),
}

/// Where the intermediate stage stands.
#[derive(Clone, Copy, Debug, PartialEq, Eq, Structural)]
pub enum Status {
    Running,
    Done,
    Failed(BootstrapError),
}

/// The action that runs `step`, given this process's pid, the pid that the
/// init process reported, and the container's limits.
pub open spec fn step_action(step: Step, own_pid: i32, init_pid: i32, resources: LinuxResources) -> Action {
    match step {
        Step::EnterNamespace(t) => Action::EnterNamespace(t),
        Step::SetDumpable(b) => Action::SetDumpable(b),
        Step::SendMappingRequest => Action::SendToMain(Message::IdentifierMappingRequest),
        Step::AwaitMappingAck => Action::Receive,
        Step::SetRootIdentity => Action::SetId { uid: 0, gid: 0 },
        Step::SetRlimit(i) => Action::SetRlimit(i),
        Step::QueryOwnPid => Action::QueryOwnPid,
        Step::AddTask => Action::Cgroup(CgroupCall::AddTask(own_pid)),
        Step::ApplyResources => Action::Cgroup(CgroupCall::Apply(creation_opt(resources))),
        Step::CreateInitChannel => Action::CreateInitChannel,
        Step::ForkInit => Action::ForkInit,
        Step::Close(e) => Action::Close(e),
        Step::AwaitInitReady => Action::Receive,
        Step::NotifyMain => Action::SendToMain(Message::IntermediateReady(init_pid)),
    }
}

/// Whether `event` is a successful outcome of `step`.
pub open spec fn accepts(step: Step, event: Event) -> bool {
    match step {
        Step::AwaitMappingAck => event == Event::Received(Message::MappingAck),
        Step::AwaitInitReady => event is Received && event->Received_0 is InitReady,
        Step::QueryOwnPid => event is Pid,
        Step::ForkInit => event is Pid,
        _ => event == Event::Done,
    }
}

/// The error that a failure of `step` reports.
pub open spec fn step_error(step: Step) -> BootstrapError {
    match step {
        Step::EnterNamespace(t) => BootstrapError::Namespace(t),
        Step::SetDumpable(_) => BootstrapError::Handshake,
        Step::SendMappingRequest => BootstrapError::Handshake,
        Step::AwaitMappingAck => BootstrapError::Handshake,
        Step::SetRootIdentity => BootstrapError::Identity,
        Step::SetRlimit(i) => BootstrapError::Rlimit(i),
        Step::QueryOwnPid => BootstrapError::Cgroup,
        Step::AddTask => BootstrapError::Cgroup,
        Step::ApplyResources => BootstrapError::Cgroup,
        Step::ForkInit => BootstrapError::Fork,
        _ => BootstrapError::Channel,
    }
}

/// The error for an outcome that `step` does not accept.
pub open spec fn rejection(step: Step, event: Event) -> BootstrapError {
    if event == Event::Failed {
        step_error(step)
    } else {
        BootstrapError::Protocol
    }
}

/// The intermediate stage of a container's bootstrap, as a state machine: it
/// names the next action, and the process that runs it hands the outcome back.
pub struct Intermediate {
    pub steps: Vec<Step>,
    /// The position of the current step.
    pub pc: usize,
    pub status: Status,
    /// This process's pid, once queried.
    pub own_pid: i32,
    /// The pid that the init process reported for itself, once it did.
    pub init_pid: i32,
    pub resources: LinuxResources,
}

impl Intermediate {
    pub open spec fn wf(&self) -> bool {
        &&& self.pc <= self.steps@.len()
        &&& (self.status == Status::Running ==> self.pc < self.steps@.len())
        &&& (self.status == Status::Done ==> self.pc == self.steps@.len())
    }

    /// The machine at the first step for `args`.
    pub fn new(args: &ContainerArgs) -> (r: Intermediate)
        ensures
            r.wf(),
            r.steps@ == intermediate_steps(*args),
            r.pc == 0,
            r.status == Status::Running,
            args.resources.is_some() ==> r.resources == args.resources.unwrap(),
    {
        let steps = plan_steps(args);
        let resources = match args.resources {
            Some(x) => x,
            None => LinuxResources { pids: None },
        };
        Intermediate { steps, pc: 0, status: Status::Running, own_pid: 0, init_pid: 0, resources }
    }

    pub fn is_running(&self) -> (r: bool)
        ensures
            r == (self.status == Status::Running),
    {
        match self.status {
            Status::Running => true,
            _ => false,
        }
    }

    /// The action of the current step.
    pub fn action(&self) -> (r: Action)
        requires
            self.wf(),
            self.status == Status::Running,
        ensures
            r == step_action(self.steps@[self.pc as int], self.own_pid, self.init_pid, self.resources),
    {
        match self.steps[self.pc] {
            Step::EnterNamespace(t) => Action::EnterNamespace(t),
            Step::SetDumpable(b) => Action::SetDumpable(b),
            Step::SendMappingRequest => Action::SendToMain(Message::IdentifierMappingRequest),
            Step::AwaitMappingAck => Action::Receive,
            Step::SetRootIdentity => Action::SetId { uid: 0, gid: 0 },
            Step::SetRlimit(i) => Action::SetRlimit(i),
            Step::QueryOwnPid => Action::QueryOwnPid,
            Step::AddTask => Action::Cgroup(CgroupCall::AddTask(self.own_pid)),
            Step::ApplyResources => Action::Cgroup(
                CgroupCall::Apply(
                    ControllerOpt {
                        resources: self.resources,
                        freezer_state: None,
                        oom_score_adj: None,
                        disable_oom_killer: false,
                    },
                ),
            ),
            Step::CreateInitChannel => Action::CreateInitChannel,
            Step::ForkInit => Action::ForkInit,
            Step::Close(e) => Action::Close(e),
            Step::AwaitInitReady => Action::Receive,
            Step::NotifyMain => Action::SendToMain(Message::IntermediateReady(self.init_pid)),
        }
    }

    /// Takes the outcome of the current action. An accepted outcome moves to
    /// the next step, or ends the stage after the last one; any other fails
    /// the stage at once, with no retry. Only this process's own pid query
    /// sets `own_pid`, and only the init process's ready message sets
    /// `init_pid`: the pid that the fork returns is not kept.
    pub fn step(&mut self, event: Event)
        requires
            old(self).wf(),
            old(self).status == Status::Running,
        ensures
            final(self).wf(),
            final(self).steps == old(self).steps,
            final(self).resources == old(self).resources,
            ({
                let s = old(self).steps@[old(self).pc as int];
                if accepts(s, event) {
                    &&& final(self).pc == old(self).pc + 1
                    &&& final(self).status == (if final(self).pc == old(self).steps@.len() {
                        Status::Done
                    } else {
                        Status::Running
                    })
                    &&& final(self).own_pid == (if s == Step::QueryOwnPid {
                        event->Pid_0
                    } else {
                        old(self).own_pid
                    })
                    &&& final(self).init_pid == (if s == Step::AwaitInitReady {
                        event->Received_0->InitReady_0
                    } else {
                        old(self).init_pid
                    })
                } else {
                    &&& final(self).pc == old(self).pc
                    &&& final(self).status == Status::Failed(rejection(s, event))
                    &&& final(self).own_pid == old(self).own_pid
                    &&& final(self).init_pid == old(self).init_pid
                }
            }),
    {
        let n = self.steps.len();
        let s = self.steps[self.pc];
        let accepted = match s {
            Step::AwaitMappingAck => match event {
                Event::Received(Message::MappingAck) => true,
                _ => false,
            },
            Step::AwaitInitReady => match event {
                Event::Received(Message::InitReady(p)) => {
                    self.init_pid = p;
                    true
                },
                _ => false,
            },
            Step::QueryOwnPid => match event {
                Event::Pid(p) => {
                    self.own_pid = p;
                    true
                },
                _ => false,
            },
            Step::ForkInit => match event {
                Event::Pid(_) => true,
                _ => false,
            },
            _ => match event {
                Event::Done => true,
                _ => false,
            },
        };
        if accepted {
            self.pc = self.pc + 1;
            if self.pc == n {
                self.status = Status::Done;
            }
        } else {
            let err = match event {
                Event::Failed => match s {
                    Step::EnterNamespace(t) => BootstrapError::Namespace(t),
                    Step::SetDumpable(_) => BootstrapError::Handshake,
                    Step::SendMappingRequest => BootstrapError::Handshake,
                    Step::AwaitMappingAck => BootstrapError::Handshake,
                    Step::SetRootIdentity => BootstrapError::Identity,
                    Step::SetRlimit(i) => BootstrapError::Rlimit(i),
                    Step::QueryOwnPid => BootstrapError::Cgroup,
                    Step::AddTask => BootstrapError::Cgroup,
                    Step::ApplyResources => BootstrapError::Cgroup,
                    Step::ForkInit => BootstrapError::Fork,
                    _ => BootstrapError::Channel,
                },
                _ => BootstrapError::Protocol,
            };
            self.status = Status::Failed(err);
        }
    }
}

/// The steps that may run before the fork of the init process.
pub open spec fn is_setup(s: Step) -> bool {
    match s {
        Step::CreateInitChannel | Step::ForkInit | Step::Close(_) | Step::AwaitInitReady
        | Step::NotifyMain => false,
        _ => true,
    }
}

proof fn lemma_layout(args: ContainerArgs)
    ensures
        ({
            let st = intermediate_steps(args);
            let k = setup_steps(args).len() as int;
            &&& st.len() == k + 6
            &&& forall|i: int| 0 <= i < k ==> is_setup(#[trigger] st[i])
            &&& st[k] == Step::CreateInitChannel
            &&& st[k + 1] == Step::ForkInit
            &&& st[k + 2] == Step::Close(Endpoint::IntermediateSender)
            &&& st[k + 3] == Step::Close(Endpoint::InitSender)
            &&& st[k + 4] == Step::AwaitInitReady
            &&& st[k + 5] == Step::NotifyMain
        }),
{
    let user = user_steps(requested(args.namespaces.entries@, LinuxNamespaceType::User));
    let rl = rlimit_steps(args.rlimit_count as nat);
    let pid = pid_steps(requested(args.namespaces.entries@, LinuxNamespaceType::Pid).is_some());
    let att = attach_steps(args.rootless, args.resources.is_some(), args.init);
    let setup = setup_steps(args);
    assert forall|i: int| 0 <= i < setup.len() implies is_setup(#[trigger] setup[i]) by {
        if i < user.len() {
            assert(setup[i] == user[i]);
        } else if i < user.len() + rl.len() {
            assert(setup[i] == rl[i - user.len()]);
        } else if i < user.len() + rl.len() + pid.len() {
            assert(setup[i] == pid[i - user.len() - rl.len()]);
        } else {
            assert(setup[i] == att[i - user.len() - rl.len() - pid.len()]);
        }
    }
    let st = intermediate_steps(args);
    assert forall|i: int| 0 <= i < setup.len() implies is_setup(#[trigger] st[i]) by {
        assert(st[i] == setup[i]);
    }
}

/// When a user namespace is created anew, the stage enters it, sets the
/// dumpable flag, sends the mapping request, waits for the ack, clears the
/// flag and becomes root inside the namespace, in that order and first of
/// all; when it joins an existing one, it enters it and becomes root, with no
/// handshake. The flag is touched nowhere else, and becoming root means uid 0
/// and gid 0.
pub proof fn lemma_user_namespace_handshake(args: ContainerArgs)
    ensures
        ({
            let st = intermediate_steps(args);
            match requested(args.namespaces.entries@, LinuxNamespaceType::User) {
                Some(u) => if u.path.is_none() {
                    &&& st[0] == Step::EnterNamespace(LinuxNamespaceType::User)
                    &&& st[1] == Step::SetDumpable(true)
                    &&& st[2] == Step::SendMappingRequest
                    &&& st[3] == Step::AwaitMappingAck
                    &&& st[4] == Step::SetDumpable(false)
                    &&& st[5] == Step::SetRootIdentity
                    &&& forall|i: int|
                        6 <= i < st.len() ==> !(#[trigger] st[i] is SetDumpable)
                            && st[i] != Step::SendMappingRequest && st[i] != Step::AwaitMappingAck
                } else {
                    &&& st[0] == Step::EnterNamespace(LinuxNamespaceType::User)
                    &&& st[1] == Step::SetRootIdentity
                    &&& forall|i: int|
                        0 <= i < st.len() ==> !(#[trigger] st[i] is SetDumpable)
                            && st[i] != Step::SendMappingRequest && st[i] != Step::AwaitMappingAck
                },
                None => forall|i: int|
                    0 <= i < st.len() ==> !(#[trigger] st[i] is SetDumpable) && st[i]
                        != Step::SendMappingRequest && st[i] != Step::AwaitMappingAck
                        && st[i] != Step::SetRootIdentity,
            }
        }),
        forall|o: i32, p: i32, r: LinuxResources|
            #[trigger] step_action(Step::SetRootIdentity, o, p, r) == (Action::SetId { uid: 0, gid: 0 }),
{
    let user = user_steps(requested(args.namespaces.entries@, LinuxNamespaceType::User));
    let rl = rlimit_steps(args.rlimit_count as nat);
    let pid = pid_steps(requested(args.namespaces.entries@, LinuxNamespaceType::Pid).is_some());
    let att = attach_steps(args.rootless, args.resources.is_some(), args.init);
    let setup = setup_steps(args);
    let st = intermediate_steps(args);
    assert forall|i: int| user.len() <= i < st.len() implies !(#[trigger] st[i] is SetDumpable)
        && st[i] != Step::SendMappingRequest && st[i] != Step::AwaitMappingAck
        && st[i] != Step::SetRootIdentity by {
        if i < setup.len() {
            assert(st[i] == setup[i]);
            if i < user.len() + rl.len() {
                assert(setup[i] == rl[i - user.len()]);
            } else if i < user.len() + rl.len() + pid.len() {
                assert(setup[i] == pid[i - user.len() - rl.len()]);
            } else {
                assert(setup[i] == att[i - user.len() - rl.len() - pid.len()]);
            }
        } else {
            assert(st[i] == fork_steps()[i - setup.len()]);
        }
    }
    if user.len() > 0 {
        assert(st[0] == user[0]);
        assert(st[1] == user[1]);
        if user.len() > 2 {
            assert(st[2] == user[2]);
            assert(st[3] == user[3]);
            assert(st[4] == user[4]);
            assert(st[5] == user[5]);
        }
    }
}

/// The positions of the setup steps that are not rlimits or namespace
/// entries: where the cgroup attachment stands.
proof fn lemma_attach_segment(args: ContainerArgs)
    ensures
        ({
            let st = intermediate_steps(args);
            let att = attach_steps(args.rootless, args.resources.is_some(), args.init);
            let k = setup_steps(args).len() as int;
            let a = k - att.len();
            &&& 0 <= a <= k
            &&& forall|i: int| a <= i < k ==> #[trigger] st[i] == att[i - a]
            &&& forall|i: int|
                0 <= i < a ==> !(#[trigger] st[i] is QueryOwnPid) && st[i] != Step::AddTask
                    && st[i] != Step::ApplyResources
            &&& (requested(args.namespaces.entries@, LinuxNamespaceType::Pid).is_some() ==> st[a
                - 1] == Step::EnterNamespace(LinuxNamespaceType::Pid))
            &&& forall|i: int|
                0 <= i < st.len() && #[trigger] st[i] == Step::EnterNamespace(
                    LinuxNamespaceType::Pid,
                ) ==> i == a - 1
        }),
{
    let user = user_steps(requested(args.namespaces.entries@, LinuxNamespaceType::User));
    let rl = rlimit_steps(args.rlimit_count as nat);
    let pid = pid_steps(requested(args.namespaces.entries@, LinuxNamespaceType::Pid).is_some());
    let att = attach_steps(args.rootless, args.resources.is_some(), args.init);
    let setup = setup_steps(args);
    let st = intermediate_steps(args);
    let k = setup.len() as int;
    let a = k - att.len();
    assert forall|i: int| a <= i < k implies #[trigger] st[i] == att[i - a] by {
        assert(st[i] == setup[i]);
    }
    assert forall|i: int| 0 <= i < a implies !(#[trigger] st[i] is QueryOwnPid) && st[i]
        != Step::AddTask && st[i] != Step::ApplyResources by {
        assert(st[i] == setup[i]);
        if i < user.len() {
            assert(setup[i] == user[i]);
        } else if i < user.len() + rl.len() {
            assert(setup[i] == rl[i - user.len()]);
        } else {
            assert(setup[i] == pid[i - user.len() - rl.len()]);
        }
    }
    if pid.len() > 0 {
        assert(st[a - 1] == setup[a - 1]);
        assert(setup[a - 1] == pid[0]);
    }
    assert forall|i: int|
        0 <= i < st.len() && #[trigger] st[i] == Step::EnterNamespace(LinuxNamespaceType::Pid)
        implies i == a - 1 by {
        if i < k {
            assert(st[i] == setup[i]);
            if i < user.len() {
                assert(setup[i] == user[i]);
            } else if i < user.len() + rl.len() {
                assert(setup[i] == rl[i - user.len()]);
            } else if i < a {
                assert(setup[i] == pid[i - user.len() - rl.len()]);
            }
        } else {
            assert(st[i] == fork_steps()[i - k]);
        }
    }
}

/// A requested PID namespace is entered once, and before the init process is
/// forked, which happens exactly once; the cgroup attachment too comes before
/// the fork, so the init process starts inside both.
pub proof fn lemma_fork_after_pid_namespace(args: ContainerArgs)
    ensures
        ({
            let st = intermediate_steps(args);
            &&& requested(args.namespaces.entries@, LinuxNamespaceType::Pid).is_some() <==> exists|
                i: int,
            |
                0 <= i < st.len() && #[trigger] st[i] == Step::EnterNamespace(
                    LinuxNamespaceType::Pid,
                )
            &&& exists|f: int|
                0 <= f < st.len() && #[trigger] st[f] == Step::ForkInit && forall|j: int|
                    0 <= j < st.len() && #[trigger] st[j] == Step::ForkInit ==> j == f
            &&& forall|i: int, j: int|
                0 <= i < st.len() && 0 <= j < st.len() && #[trigger] st[i] == Step::EnterNamespace(
                    LinuxNamespaceType::Pid,
                ) && #[trigger] st[j] == Step::ForkInit ==> i < j
            &&& forall|i: int, j: int|
                0 <= i < st.len() && 0 <= j < st.len() && (#[trigger] st[i] == Step::AddTask
                    || st[i] == Step::ApplyResources) && #[trigger] st[j] == Step::ForkInit ==> i < j
        }),
{
    lemma_layout(args);
    lemma_attach_segment(args);
    let st = intermediate_steps(args);
    let k = setup_steps(args).len() as int;
    assert(st[k + 1] == Step::ForkInit);
    assert forall|j: int| 0 <= j < st.len() && #[trigger] st[j] == Step::ForkInit implies j == k
        + 1 by {
        if j < k {
            assert(is_setup(st[j]));
        }
    }
}

/// Without rootless mode the stage joins the cgroup exactly once, after
/// learning its own pid; it pushes limits, once, if and only if this is the
/// initial creation and the container has limits. In rootless mode it does
/// neither.
pub proof fn lemma_plan_cgroup_calls(args: ContainerArgs)
    ensures
        ({
            let st = intermediate_steps(args);
            &&& !args.rootless ==> exists|t: int|
                1 <= t < st.len() && #[trigger] st[t] == Step::AddTask && st[t - 1]
                    == Step::QueryOwnPid && forall|j: int|
                    0 <= j < st.len() && #[trigger] st[j] == Step::AddTask ==> j == t
            &&& args.rootless ==> forall|j: int| 0 <= j < st.len() ==> #[trigger] st[j] != Step::AddTask
            &&& (exists|j: int| 0 <= j < st.len() && #[trigger] st[j] == Step::ApplyResources) <==> (
            !args.rootless && args.init && args.resources.is_some())
            &&& forall|i: int, j: int|
                0 <= i < st.len() && 0 <= j < st.len() && #[trigger] st[i] == Step::ApplyResources
                    && #[trigger] st[j] == Step::ApplyResources ==> i == j
        }),
{
    lemma_layout(args);
    lemma_attach_segment(args);
    let st = intermediate_steps(args);
    let att = attach_steps(args.rootless, args.resources.is_some(), args.init);
    let k = setup_steps(args).len() as int;
    let a = k - att.len();
    assert forall|j: int| 0 <= j < st.len() && #[trigger] st[j] == Step::AddTask implies j == a
        + 1 by {
        if k <= j {
            assert(!is_setup(st[j]));
        }
    }
    assert forall|j: int| 0 <= j < st.len() && #[trigger] st[j] == Step::ApplyResources implies j
        == a + 2 by {
        if k <= j {
            assert(!is_setup(st[j]));
        }
    }
    if !args.rootless {
        assert(st[a + 1] == Step::AddTask);
        if args.init && args.resources.is_some() {
            assert(st[a + 2] == Step::ApplyResources);
        }
    }
}

/// The stage waits for the init process's ready message and then, as its
/// very last step, notifies the main process with the pid that the message
/// carried: the pid that init reported for itself, not the one that the fork
/// returned.
pub proof fn lemma_notify_carries_reported_pid(args: ContainerArgs)
    ensures
        ({
            let st = intermediate_steps(args);
            &&& st[st.len() - 2] == Step::AwaitInitReady
            &&& st[st.len() - 1] == Step::NotifyMain
            &&& forall|j: int| 0 <= j < st.len() - 1 ==> #[trigger] st[j] != Step::NotifyMain
        }),
        forall|o: i32, p: i32, r: LinuxResources|
            #[trigger] step_action(Step::NotifyMain, o, p, r) == Action::SendToMain(
                Message::IntermediateReady(p),
            ),
        forall|p: i32| #[trigger] accepts(Step::AwaitInitReady, Event::Received(Message::InitReady(p))),
{
    lemma_layout(args);
    let st = intermediate_steps(args);
    let k = setup_steps(args).len() as int;
    assert forall|j: int| 0 <= j < st.len() - 1 implies #[trigger] st[j] != Step::NotifyMain by {
        if j < k {
            assert(is_setup(st[j]));
        }
    }
}

/// After the fork the stage closes its copy of the sender that the init
/// process writes to it and its copy of the sender towards the init process,
/// each exactly once and before its first wait on the init process; it never closes the sender to the main process, which it still
/// needs. The init process closes the two ends it does not use, each once.
pub proof fn lemma_closes_once(args: ContainerArgs)
    ensures
        ({
            let st = intermediate_steps(args);
            let k = setup_steps(args).len() as int;
            &&& st[k + 1] == Step::ForkInit
            &&& st[k + 2] == Step::Close(Endpoint::IntermediateSender)
            &&& st[k + 3] == Step::Close(Endpoint::InitSender)
            &&& st[k + 4] == Step::AwaitInitReady
            &&& forall|j: int|
                0 <= j < st.len() && #[trigger] st[j] is Close ==> (j == k + 2 || j == k + 3)
            &&& forall|j: int| 0 <= j < st.len() && #[trigger] st[j] == Step::AwaitInitReady ==> j == k + 4
        }),
        crate::channel::init_stage_close_list().len() == 2,
        crate::channel::init_stage_close_list()[0] != crate::channel::init_stage_close_list()[1],
{
    lemma_layout(args);
    let st = intermediate_steps(args);
    let k = setup_steps(args).len() as int;
    assert forall|j: int| 0 <= j < st.len() && #[trigger] st[j] is Close implies (j == k + 2 || j
        == k + 3) by {
        if j < k {
            assert(is_setup(st[j]));
        }
    }
    assert forall|j: int| 0 <= j < st.len() && #[trigger] st[j] == Step::AwaitInitReady implies j
        == k + 4 by {
        if j < k {
            assert(is_setup(st[j]));
        }
    }
}

/// The phase of the stage that a step belongs to, in running order: the
/// user namespace and its handshake, the rlimits, the PID namespace, the
/// cgroup attachment, then the fork and what follows it.
pub open spec fn phase(s: Step) -> int {
    match s {
        Step::EnterNamespace(t) => if t == LinuxNamespaceType::Pid {
            2
        } else {
            0
        },
        Step::SetDumpable(_) | Step::SendMappingRequest | Step::AwaitMappingAck
        | Step::SetRootIdentity => 0,
        Step::SetRlimit(_) => 1,
        Step::QueryOwnPid | Step::AddTask | Step::ApplyResources => 3,
        Step::CreateInitChannel => 4,
        Step::ForkInit => 5,
        Step::Close(_) => 6,
        Step::AwaitInitReady => 7,
        Step::NotifyMain => 8,
    }
}

/// The steps run in phase order, never going back: namespaces and identity,
/// then the rlimits, then the PID namespace, then the cgroup attachment, then
/// the fork, the closes, the wait and the notification.
pub proof fn lemma_phase_order(args: ContainerArgs)
    ensures
        forall|i: int, j: int|
            0 <= i < j < intermediate_steps(args).len() ==> phase(
                #[trigger] intermediate_steps(args)[i],
            ) <= phase(#[trigger] intermediate_steps(args)[j]),
{
    let user = user_steps(requested(args.namespaces.entries@, LinuxNamespaceType::User));
    let rl = rlimit_steps(args.rlimit_count as nat);
    let pid = pid_steps(requested(args.namespaces.entries@, LinuxNamespaceType::Pid).is_some());
    let att = attach_steps(args.rootless, args.resources.is_some(), args.init);
    let setup = setup_steps(args);
    let st = intermediate_steps(args);
    let k = setup.len() as int;
    let u = user.len() as int;
    let r = rl.len() as int;
    let p = pid.len() as int;
    let pos = |i: int|
        if i < u {
            0
        } else if i < u + r {
            1
        } else if i < u + r + p {
            2
        } else if i < k {
            3
        } else {
            phase(fork_steps()[i - k])
        };
    assert forall|i: int| 0 <= i < st.len() implies phase(#[trigger] st[i]) == pos(i) by {
        if i < k {
            assert(st[i] == setup[i]);
            if i < u {
                assert(setup[i] == user[i]);
            } else if i < u + r {
                assert(setup[i] == rl[i - u]);
            } else if i < u + r + p {
                assert(setup[i] == pid[i - u - r]);
            } else {
                assert(setup[i] == att[i - u - r - p]);
            }
        } else {
            assert(st[i] == fork_steps()[i - k]);
        }
    }
    assert forall|i: int, j: int| 0 <= i < j < st.len() implies phase(#[trigger] st[i]) <= phase(
        #[trigger] st[j],
    ) by {
        assert(phase(st[i]) == pos(i));
        assert(phase(st[j]) == pos(j));
        if k <= i {
            assert(fork_steps()[i - k] == st[i]);
            assert(fork_steps()[j - k] == st[j]);
        }
    }
}

/// The rlimits are applied one at a time, each once, in specification order.
pub proof fn lemma_rlimits_in_order(args: ContainerArgs)
    ensures
        ({
            let o = user_steps(requested(args.namespaces.entries@, LinuxNamespaceType::User)).len() as int;
            &&& o + args.rlimit_count <= intermediate_steps(args).len()
            &&& forall|i: int|
                0 <= i < args.rlimit_count ==> #[trigger] intermediate_steps(args)[o + i]
                    == Step::SetRlimit(i as usize)
            &&& forall|j: int|
                0 <= j < intermediate_steps(args).len() && (#[trigger] intermediate_steps(
                    args,
                )[j] is SetRlimit) ==> o <= j < o + args.rlimit_count
        }),
{
    let user = user_steps(requested(args.namespaces.entries@, LinuxNamespaceType::User));
    let rl = rlimit_steps(args.rlimit_count as nat);
    let pid = pid_steps(requested(args.namespaces.entries@, LinuxNamespaceType::Pid).is_some());
    let att = attach_steps(args.rootless, args.resources.is_some(), args.init);
    let setup = setup_steps(args);
    let st = intermediate_steps(args);
    let k = setup.len() as int;
    let u = user.len() as int;
    let r = rl.len() as int;
    assert forall|i: int| 0 <= i < args.rlimit_count implies #[trigger] st[u + i] == Step::SetRlimit(
        i as usize,
    ) by {
        assert(st[u + i] == setup[u + i]);
        assert(setup[u + i] == rl[i]);
    }
    assert forall|j: int| 0 <= j < st.len() && (#[trigger] st[j] is SetRlimit) implies u <= j < u
        + args.rlimit_count by {
        if j < k {
            assert(st[j] == setup[j]);
            if j < u {
                assert(setup[j] == user[j]);
            } else if j >= u + r {
                if j < u + r + pid.len() {
                    assert(setup[j] == pid[j - u - r]);
                } else {
                    assert(setup[j] == att[j - u - r - pid.len()]);
                }
            }
        } else {
            assert(st[j] == fork_steps()[j - k]);
        }
    }
}

} // verus!
