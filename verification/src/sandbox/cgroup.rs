//! Limits on what a sandbox may use of the host.
use vstd::prelude::*;
use vstd::string::*;

use crate::paths;
use crate::text;

verus! {

/// The period over which processor time is shared out, in microseconds.
pub const CPU_PERIOD: u64 = 100000;

/// What the hypervisor needs beside the memory of the guest: 256 megabytes.
pub const MEMORY_OVERHEAD: u64 = 268435456;

/// The bytes of a megabyte.
pub const MEGABYTE: u64 = 1048576;

/// The most memory of a guest for which the limit is still a number of 64 bits, in megabytes.
pub const MAX_GUEST_MEMORY_MB: u64 = 17592186044159;

/// A control group.
#[derive(Debug)]
pub struct CGroup {
    pub path: String,
}

/// A file that is written.
pub struct FileWrite {
    pub path: String,
    pub contents: String,
}

/// The mathematical value of a file that is written.
pub struct FileWriteView {
    pub path: Seq<char>,
    pub contents: Seq<char>,
}

impl View for FileWrite {
    type V = FileWriteView;

    open spec fn view(&self) -> FileWriteView {
        FileWriteView { path: self.path@, contents: self.contents@ }
    }
}

/// How a control group is set up: create the two directories, then write the files. Without
/// any of it there is no control group.
pub struct CGroupPlan {
    pub base: String,
    pub group: CGroup,
    pub writes: Vec<FileWrite>,
}

/// The group of all sandboxes of a user.
pub open spec fn base_group(uid: u32) -> Seq<char> {
    "/sys/fs/cgroup/user.slice/user-"@ + text::decimal(uid as nat) + ".slice/user@"@
        + text::decimal(uid as nat) + ".service/blinools.slice"@
}

/// The files that set the limits: processor time, memory without swap, and processes.
pub open spec fn limit_writes(
    base: Seq<char>,
    group: Seq<char>,
    cpu_quota: u64,
    memory_mb: u64,
) -> Seq<FileWriteView> {
    seq![
        FileWriteView {
            path: paths::join(base, "cgroup.subtree_control"@),
            contents: "+cpu +memory +pids"@,
        },
        FileWriteView {
            path: paths::join(group, "cpu.max"@),
            contents: text::decimal(cpu_quota as nat) + " "@ + text::decimal(CPU_PERIOD as nat),
        },
        FileWriteView {
            path: paths::join(group, "memory.max"@),
            contents: text::decimal((memory_mb * MEGABYTE + MEMORY_OVERHEAD) as nat),
        },
        FileWriteView { path: paths::join(group, "memory.swap.max"@), contents: "0"@ },
        FileWriteView { path: paths::join(group, "pids.max"@), contents: "1024"@ },
    ]
}

/// The values of a list of files that are written.
pub open spec fn writes_view(writes: Seq<FileWrite>) -> Seq<FileWriteView> {
    writes.map_values(|write: FileWrite| write@)
}

/// The group of all sandboxes of a user.
fn maybe_init_base_group(uid: u32) -> (path: String)
    ensures
        path@ == base_group(uid),
{
    let number: String = text::decimal_string(uid as u64);
    let mut path: String = "/sys/fs/cgroup/user.slice/user-".to_owned();
    path.append(number.as_str());
    path.append(".slice/user@");
    path.append(number.as_str());
    path.append(".service/blinools.slice");
    path
}

/// Puts a file behind the others.
fn push_write(writes: &mut Vec<FileWrite>, directory: &str, file: &str, contents: String)
    ensures
        writes_view(final(writes)@) == writes_view(old(writes)@).push(
            FileWriteView { path: paths::join(directory@, file@), contents: contents@ },
        ),
{
    writes.push(FileWrite { path: paths::joined_path(directory, file), contents });
    assert(writes_view(writes@) =~= writes_view(old(writes)@).push(
        FileWriteView { path: paths::join(directory@, file@), contents: contents@ },
    ));
}

impl CGroup {
    /// Plans the control group of a sandbox. `cpu_quota` is how much processor time it may
    /// use in each period.
    pub fn create(name: &str, uid: u32, cpu_quota: u64, memory_mb: u64) -> (plan: CGroupPlan)
        requires
            memory_mb <= MAX_GUEST_MEMORY_MB,
        ensures
            plan.base@ == base_group(uid),
            plan.group.path@ == paths::join(base_group(uid), name@),
            writes_view(plan.writes@) == limit_writes(
                plan.base@,
                plan.group.path@,
                cpu_quota,
                memory_mb,
            ),
    {
        let base: String = maybe_init_base_group(uid);
        let path: String = paths::joined_path(base.as_str(), name);
        let mut writes: Vec<FileWrite> = Vec::new();
        push_write(
            &mut writes,
            base.as_str(),
            "cgroup.subtree_control",
            "+cpu +memory +pids".to_owned(),
        );
        let mut cpu: String = text::decimal_string(cpu_quota);
        cpu.append(" ");
        let period: String = text::decimal_string(CPU_PERIOD);
        cpu.append(period.as_str());
        push_write(&mut writes, path.as_str(), "cpu.max", cpu);
        let memory: u64 = memory_mb * MEGABYTE + MEMORY_OVERHEAD;
        push_write(&mut writes, path.as_str(), "memory.max", text::decimal_string(memory));
        push_write(&mut writes, path.as_str(), "memory.swap.max", "0".to_owned());
        push_write(&mut writes, path.as_str(), "pids.max", "1024".to_owned());
        assert(writes_view(writes@) =~= limit_writes(base@, path@, cpu_quota, memory_mb));
        CGroupPlan { base, group: CGroup { path }, writes }
    }

    /// Plans how a process enters the group: it writes its number into this file.
    pub fn enter(&self, pid: u32) -> (write: FileWrite)
        ensures
            write@ == (FileWriteView {
                path: paths::join(self.path@, "cgroup.procs"@),
                contents: text::decimal(pid as nat),
            }),
    {
        FileWrite {
            path: paths::joined_path(self.path.as_str(), "cgroup.procs"),
            contents: text::decimal_string(pid as u64),
        }
    }
}

/// Where the control group of a sandbox is and what is written there, file by file. The memory
/// is that of the guest and 256 megabytes beside it, and none of it is swapped out.
pub proof fn lemma_limits(
    name: &str,
    uid: u32,
    cpu_quota: u64,
    memory_mb: u64,
    plan: CGroupPlan,
)
    requires
        memory_mb <= MAX_GUEST_MEMORY_MB,
        call_ensures(CGroup::create, (name, uid, cpu_quota, memory_mb), plan),
    ensures
        ({
            let found = plan.writes@;
            let group = plan.group.path@;
            let user = text::decimal(uid as nat);
            &&& plan.base@ == "/sys/fs/cgroup/user.slice/user-"@ + user + ".slice/user@"@ + user
                + ".service/blinools.slice"@
            &&& group == paths::join(plan.base@, name@)
            &&& found.len() == 5
            &&& found[0].path@ == paths::join(plan.base@, "cgroup.subtree_control"@)
            &&& found[0].contents@ == "+cpu +memory +pids"@
            &&& found[1].path@ == paths::join(group, "cpu.max"@)
            &&& found[1].contents@ == text::decimal(cpu_quota as nat) + " "@ + text::decimal(
                100000,
            )
            &&& found[2].path@ == paths::join(group, "memory.max"@)
            &&& found[2].contents@ == text::decimal(((memory_mb + 256) * 1024 * 1024) as nat)
            &&& found[3].path@ == paths::join(group, "memory.swap.max"@)
            &&& found[3].contents@ == "0"@
            &&& found[4].path@ == paths::join(group, "pids.max"@)
            &&& found[4].contents@ == "1024"@
        }),
{
    let found = writes_view(plan.writes@);
    assert(found.len() == plan.writes@.len());
    assert forall|i: int| 0 <= i < found.len() implies plan.writes@[i]@ == #[trigger] found[i] by {}
    let all = limit_writes(plan.base@, plan.group.path@, cpu_quota, memory_mb);
    assert(found[0] == all[0] && found[1] == all[1] && found[2] == all[2] && found[3] == all[3]
        && found[4] == all[4]);
}

/// A process enters a group by its number.
pub proof fn lemma_entering_group(group: &CGroup, pid: u32, write: FileWrite)
    requires
        call_ensures(CGroup::enter, (group, pid), write),
    ensures
        write.path@ == paths::join(group.path@, "cgroup.procs"@),
        text::number(write.contents@, u32::MAX as nat) == Some(pid as nat),
{
    assert(write@.path == write.path@ && write@.contents == write.contents@);
    text::lemma_decimal_is_read_back(pid as nat, u32::MAX as nat);
}

} // verus!
