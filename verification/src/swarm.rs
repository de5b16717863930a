//! Bookkeeping of a swarm of microVMs: where its state lives, the
//! all-or-nothing rule for bringing it up, and the frozen/running flip of
//! freezing and resuming it.  Starting processes, talking to their API and
//! reading or writing the state file stay with the caller.

use vstd::prelude::*;

use crate::text::{decimal_text, push_char, push_decimal};
use vstd::string::StringExecFns;

verus! {

/// Default number of vCPUs of a member.
pub fn one() -> (n: u32)
    ensures
        n == 1,
{
    1
}

/// Default memory of a member, in MiB.
pub fn default_mem() -> (n: u32)
    ensures
        n == 256,
{
    256
}

// ---- paths -----------------------------------------------------------------------

/// `PathBuf::join` on Unix: an absolute `part` replaces `base`; otherwise a
/// `/` goes between them unless `base` is empty or already ends with one.
pub open spec fn path_joined(base: Seq<char>, part: Seq<char>) -> Seq<char> {
    if part.len() > 0 && part[0] == '/' {
        part
    } else if base.len() > 0 && base.last() != '/' {
        base.push('/') + part
    } else {
        base + part
    }
}

fn append(s: &mut String, t: &str)
    ensures
        final(s)@ == old(s)@ + t@,
{
    s.append(t);
}

/// `base` joined with `part`, as `Path::join` gives it.
pub fn join_path(base: &str, part: &str) -> (p: String)
    ensures
        p@ == path_joined(base@, part@),
{
    let pc = part.unicode_len();
    if pc > 0 && part.get_char(0) == '/' {
        return part.to_owned();
    }
    let mut p = base.to_owned();
    let bc = base.unicode_len();
    if bc > 0 && base.get_char(bc - 1) != '/' {
        push_char(&mut p, '/');
    }
    append(&mut p, part);
    p
}

/// Where the state of swarm `name` is kept: `<state_dir>/<name>.json`.
pub fn state_path(state_dir: &str, name: &str) -> (p: String)
    ensures
        p@ == path_joined(state_dir@, name@ + ".json"@),
{
    let mut file = name.to_owned();
    append(&mut file, ".json");
    join_path(state_dir, file.as_str())
}

/// A file beside the log: `<logpath>.<ext>`.
pub fn side(logpath: &str, ext: &str) -> (p: String)
    ensures
        p@ == logpath@ + "."@ + ext@,
{
    let mut p = logpath.to_owned();
    append(&mut p, ".");
    append(&mut p, ext);
    p
}

/// The snapshot and memory files of member `member` in `snapdir`.
pub fn snapshot_files(snapdir: &str, member: &str) -> (r: (String, String))
    ensures
        r.0@ == path_joined(snapdir@, member@ + ".vmstate"@),
        r.1@ == path_joined(snapdir@, member@ + ".mem"@),
{
    let mut snap = member.to_owned();
    append(&mut snap, ".vmstate");
    let mut mem = member.to_owned();
    append(&mut mem, ".mem");
    (join_path(snapdir, snap.as_str()), join_path(snapdir, mem.as_str()))
}

// ---- state -----------------------------------------------------------------------

/// One member of a swarm as the state file records it.
#[derive(Clone, Debug, PartialEq, Eq)]
pub struct MemberState {
    pub name: String,
    /// Process id; 0 when frozen or stopped.
    pub pid: u32,
    /// The Firecracker API socket.
    pub sock: String,
    /// Snapshot file; empty until frozen.
    pub snapshot: String,
    /// Memory file; empty until frozen.
    pub mem: String,
}

/// A swarm as the state file records it.
#[derive(Clone, Debug, PartialEq, Eq)]
pub struct SwarmState {
    pub name: String,
    pub frozen: bool,
    pub members: Vec<MemberState>,
}

/// Why a swarm operation was refused.
#[derive(Clone, Debug, PartialEq, Eq)]
pub enum SwarmError {
    /// Freezing a swarm that is frozen already.
    AlreadyFrozen { name: String },
    /// Resuming a swarm that is not frozen.
    NotFrozen { name: String },
    /// Some members exited right after booting; none is kept.
    MembersDied { swarm: String, dead: Vec<String> },
}

/// A process id that names a process: 0 stands for none.
pub fn has_process(pid: u32) -> (b: bool)
    ensures
        b == (pid != 0),
{
    pid != 0
}

/// Freezing is refused on a swarm that is frozen already.
pub fn check_freeze(name: &str, s: &SwarmState) -> (r: Result<(), SwarmError>)
    ensures
        r is Ok <==> !s.frozen,
        r matches Err(SwarmError::AlreadyFrozen { name: n }) ==> n@ == name@,
        r matches Err(e) ==> e is AlreadyFrozen,
{
    if s.frozen {
        Err(SwarmError::AlreadyFrozen { name: name.to_owned() })
    } else {
        Ok(())
    }
}

/// Resuming is refused on a swarm that is not frozen.
pub fn check_resume(name: &str, s: &SwarmState) -> (r: Result<(), SwarmError>)
    ensures
        r is Ok <==> s.frozen,
        r matches Err(SwarmError::NotFrozen { name: n }) ==> n@ == name@,
        r matches Err(e) ==> e is NotFrozen,
{
    if s.frozen {
        Ok(())
    } else {
        Err(SwarmError::NotFrozen { name: name.to_owned() })
    }
}

/// Member `i` of `after` is member `i` of `before`, stopped, with the snapshot
/// files `shot`.
pub open spec fn stopped_with(before: MemberState, after: MemberState, shot: (String, String)) -> bool {
    &&& after.name@ == before.name@
    &&& after.sock@ == before.sock@
    &&& after.pid == 0
    &&& after.snapshot@ == shot.0@
    &&& after.mem@ == shot.1@
}

/// The state once every member has been snapshotted: pairing members with
/// the snapshot files in order (as far as both go), each paired member is
/// stopped (`pid` 0) and records its files; the swarm is frozen.
pub fn freeze_state(s: SwarmState, shots: Vec<(String, String)>) -> (r: SwarmState)
    ensures
        r.name@ == s.name@,
        r.frozen,
        r.members@.len() == s.members@.len(),
        forall|i: int|
            0 <= i < s.members@.len() ==> if i < shots@.len() {
                stopped_with(s.members@[i], #[trigger] r.members@[i], shots@[i])
            } else {
                r.members@[i] == s.members@[i]
            },
{
    let SwarmState { name, frozen: _, members } = s;
    let ghost old_members = members@;
    let k = shots.len();
    let mut out: Vec<MemberState> = Vec::new();
    for m in it: members.into_iter()
        invariant
            it.seq() == old_members,
            k == shots@.len(),
            out@.len() == it.index(),
            forall|j: int|
                0 <= j < out@.len() ==> if j < k {
                    stopped_with(old_members[j], #[trigger] out@[j], shots@[j])
                } else {
                    out@[j] == old_members[j]
                },
    {
        let i = out.len();
        if i < k {
            let snapshot = shots[i].0.clone();
            let mem = shots[i].1.clone();
            out.push(MemberState { name: m.name, pid: 0, sock: m.sock, snapshot, mem });
        } else {
            out.push(m);
        }
    }
    SwarmState { name, frozen: true, members: out }
}

/// The state of a swarm just brought up: running, its members in the order
/// given, each with its process and API socket and no snapshot yet.
pub fn up_state(name: String, names: Vec<String>, pids: Vec<u32>, socks: Vec<String>) -> (s:
    SwarmState)
    requires
        pids@.len() == names@.len(),
        socks@.len() == names@.len(),
    ensures
        s.name@ == name@,
        !s.frozen,
        s.members@.len() == names@.len(),
        forall|i: int|
            0 <= i < names@.len() ==> {
                &&& (#[trigger] s.members@[i]).name@ == names@[i]@
                &&& s.members@[i].pid == pids@[i]
                &&& s.members@[i].sock@ == socks@[i]@
                &&& s.members@[i].snapshot@ == Seq::<char>::empty()
                &&& s.members@[i].mem@ == Seq::<char>::empty()
            },
{
    let n = names.len();
    let mut members: Vec<MemberState> = Vec::new();
    for i in 0..n
        invariant
            n == names@.len(),
            pids@.len() == n,
            socks@.len() == n,
            members@.len() == i,
            forall|j: int|
                0 <= j < i ==> {
                    &&& (#[trigger] members@[j]).name@ == names@[j]@
                    &&& members@[j].pid == pids@[j]
                    &&& members@[j].sock@ == socks@[j]@
                    &&& members@[j].snapshot@ == Seq::<char>::empty()
                    &&& members@[j].mem@ == Seq::<char>::empty()
                },
    {
        members.push(
            MemberState {
                name: names[i].clone(),
                pid: pids[i],
                sock: socks[i].clone(),
                snapshot: String::new(),
                mem: String::new(),
            },
        );
    }
    SwarmState { name, frozen: false, members }
}

/// The state once every member has been restored: the swarm runs again.
pub fn resume_state(s: SwarmState) -> (r: SwarmState)
    ensures
        r.name@ == s.name@,
        !r.frozen,
        r.members@ == s.members@,
{
    let SwarmState { name, frozen: _, members } = s;
    SwarmState { name, frozen: false, members }
}

/// Member `i`, restored: running as `pid` behind the socket `sock`.
pub fn member_resumed(m: MemberState, pid: u32, sock: String) -> (r: MemberState)
    ensures
        r.name@ == m.name@,
        r.pid == pid,
        r.sock@ == sock@,
        r.snapshot@ == m.snapshot@,
        r.mem@ == m.mem@,
{
    MemberState { name: m.name, pid, sock, snapshot: m.snapshot, mem: m.mem }
}

// ---- all or nothing ----------------------------------------------------------------

/// The names whose process exited, in order.
pub open spec fn dead_names(names: Seq<Seq<char>>, exited: Seq<bool>) -> Seq<Seq<char>>
    decreases names.len(),
{
    if names.len() == 0 || exited.len() == 0 {
        seq![]
    } else {
        let rest = dead_names(names.drop_last(), exited.drop_last());
        if names.len() == exited.len() && exited.last() {
            rest.push(names.last())
        } else {
            rest
        }
    }
}

/// The views of a list of strings.
pub open spec fn name_views(v: Seq<String>) -> Seq<Seq<char>> {
    v.map_values(|s: String| s@)
}

/// A swarm comes up all or nothing: given whether each member's process
/// exited after booting, the swarm is kept only when none did; otherwise the
/// error lists the members that died, in order.
pub fn check_all_up(swarm: &str, names: &Vec<String>, exited: &Vec<bool>) -> (r: Result<
    (),
    SwarmError,
>)
    requires
        names@.len() == exited@.len(),
    ensures
        r is Ok <==> (forall|i: int| 0 <= i < exited@.len() ==> !exited@[i]),
        r matches Err(e) ==> (e matches SwarmError::MembersDied { swarm: s, dead } && s@ == swarm@
            && name_views(dead@) == dead_names(name_views(names@), exited@)),
{
    let n = names.len();
    let mut dead: Vec<String> = Vec::new();
    let mut i: usize = 0;
    while i < n
        invariant
            n == names@.len(),
            n == exited@.len(),
            i <= n,
            name_views(dead@) == dead_names(
                name_views(names@.take(i as int)),
                exited@.take(i as int),
            ),
            (dead@.len() == 0) == (forall|j: int| 0 <= j < i ==> !exited@[j]),
        decreases n - i,
    {
        let ghost before = dead@;
        assert(name_views(names@.take(i + 1)).drop_last() =~= name_views(names@.take(i as int)));
        assert(exited@.take(i + 1).drop_last() =~= exited@.take(i as int));
        if exited[i] {
            dead.push(names[i].clone());
            assert(name_views(dead@) =~= name_views(before).push(names@[i as int]@));
        }
        i = i + 1;
    }
    assert(names@.take(n as int) =~= names@);
    assert(exited@.take(n as int) =~= exited@);
    if dead.len() == 0 {
        Ok(())
    } else {
        Err(SwarmError::MembersDied { swarm: swarm.to_owned(), dead })
    }
}


// ---- reports -----------------------------------------------------------------------

/// The texts joined with `sep` between them.
pub open spec fn joined(parts: Seq<Seq<char>>, sep: Seq<char>) -> Seq<char>
    decreases parts.len(),
{
    if parts.len() == 0 {
        seq![]
    } else if parts.len() == 1 {
        parts[0]
    } else {
        joined(parts.drop_last(), sep) + sep + parts.last()
    }
}

/// `parts.join(sep)`.
pub fn join(parts: &Vec<String>, sep: &str) -> (s: String)
    ensures
        s@ == joined(name_views(parts@), sep@),
{
    let mut s = String::new();
    let n = parts.len();
    for i in 0..n
        invariant
            n == parts@.len(),
            s@ == joined(name_views(parts@.take(i as int)), sep@),
    {
        assert(name_views(parts@.take(i + 1)).drop_last() =~= name_views(parts@.take(i as int)));
        if i > 0 {
            append(&mut s, sep);
        } else {
            assert(s@ =~= Seq::<char>::empty());
        }
        append(&mut s, parts[i].as_str());
        assert(s@ =~= joined(name_views(parts@.take(i + 1)), sep@));
    }
    assert(parts@.take(n as int) =~= parts@);
    s
}

fn append_count(s: &mut String, n: usize)
    ensures
        final(s)@ == old(s)@ + decimal_text(n as nat),
{
    push_decimal(s, n as u128);
}

impl SwarmError {
    /// The report for this error.
    pub fn message(&self) -> (s: String)
        ensures
            s@ == match *self {
                SwarmError::AlreadyFrozen { name } => "swarm '"@ + name@ + "' is already frozen"@,
                SwarmError::NotFrozen { name } => "swarm '"@ + name@ + "' is not frozen"@,
                SwarmError::MembersDied { swarm, dead } => "swarm '"@ + swarm@
                    + "' failed all-or-nothing; members died: "@ + joined(name_views(dead@), ", "@),
            },
    {
        match self {
            SwarmError::AlreadyFrozen { name } => {
                let mut s = "swarm '".to_owned();
                append(&mut s, name.as_str());
                append(&mut s, "' is already frozen");
                s
            },
            SwarmError::NotFrozen { name } => {
                let mut s = "swarm '".to_owned();
                append(&mut s, name.as_str());
                append(&mut s, "' is not frozen");
                s
            },
            SwarmError::MembersDied { swarm, dead } => {
                let mut s = "swarm '".to_owned();
                append(&mut s, swarm.as_str());
                append(&mut s, "' failed all-or-nothing; members died: ");
                let list = join(dead, ", ");
                append(&mut s, list.as_str());
                s
            },
        }
    }
}

/// How many of the flags are set.
pub open spec fn count_set(flags: Seq<bool>) -> nat
    decreases flags.len(),
{
    if flags.len() == 0 {
        0
    } else {
        count_set(flags.drop_last()) + if flags.last() {
            1nat
        } else {
            0nat
        }
    }
}

/// The status line of a swarm: frozen, with its number of snapshots, or how
/// many members are alive (`alive[i]` for member `i`) out of all.
pub fn status_line(s: &SwarmState, alive: &Vec<bool>) -> (line: String)
    ensures
        line@ == if s.frozen {
            s.name@ + ": frozen ("@ + decimal_text(s.members@.len()) + " snapshots)"@
        } else {
            s.name@ + ": "@ + decimal_text(count_set(alive@)) + "/"@ + decimal_text(
                s.members@.len(),
            ) + " alive"@
        },
{
    let mut line = s.name.clone();
    if s.frozen {
        append(&mut line, ": frozen (");
        append_count(&mut line, s.members.len());
        append(&mut line, " snapshots)");
    } else {
        let n = alive.len();
        let mut count: usize = 0;
        for i in 0..n
            invariant
                n == alive@.len(),
                count == count_set(alive@.take(i as int)),
                count <= i,
        {
            assert(alive@.take(i + 1).drop_last() =~= alive@.take(i as int));
            if alive[i] {
                count = count + 1;
            }
        }
        assert(alive@.take(n as int) =~= alive@);
        append(&mut line, ": ");
        append_count(&mut line, count);
        append(&mut line, "/");
        append_count(&mut line, s.members.len());
        append(&mut line, " alive");
    }
    line
}

/// The report of a swarm that came up: its name, size and members.
pub fn up_report(swarm: &str, names: &Vec<String>) -> (line: String)
    ensures
        line@ == "swarm '"@ + swarm@ + "' up: "@ + decimal_text(names@.len()) + " microVMs ("@
            + joined(name_views(names@), ", "@) + ")"@,
{
    let mut line = "swarm '".to_owned();
    append(&mut line, swarm);
    append(&mut line, "' up: ");
    append_count(&mut line, names.len());
    append(&mut line, " microVMs (");
    let list = join(names, ", ");
    append(&mut line, list.as_str());
    append(&mut line, ")");
    line
}

} // verus!
