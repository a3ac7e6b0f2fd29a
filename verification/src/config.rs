//! The typed, immutable view of the configuration: destinations, tasks,
//! logging and the daemon's own settings. Loaded once at startup and
//! shared read-only afterwards.

use crate::destination::Destination;
use crate::strategy::Strategy;
use crate::text::str_eq;
use vstd::prelude::*;
use vstd::string::StringExecFns;

verus! {

/// Streaming Zstd settings for a task's compression stage.
#[derive(Debug)]
pub struct ZstdCompression {
    pub level: i32,
    pub workers: u32,
}

/// Compression of the replication stream; absence means passthrough.
#[derive(Debug)]
pub struct Compression {
    pub zstd: ZstdCompression,
}

/// One backup task: which destination it writes to, how datasets are
/// selected and sent, and how many dataset pipelines may run at once.
#[derive(Debug)]
pub struct Task {
    pub destination: String,
    pub strategy: Strategy,
    pub compression: Option<Compression>,
    pub parallelism: u32,
}

/// Terminal logging settings.
#[derive(Debug)]
pub struct LogTerminal {
    pub enabled: bool,
    pub level: String,
}

impl Default for LogTerminal {
    /// Terminal logging is on by default, at level `INFO`.
    fn default() -> (r: Self)
        ensures
            r.enabled == true,
            r.level@ == "INFO"@,
    {
        LogTerminal { enabled: true, level: String::from_str("INFO") }
    }
}

/// Syslog settings; off by default.
#[derive(Debug)]
pub struct LogSysLog {
    pub enabled: bool,
    pub level: String,
    pub socket: String,
}

/// Logging configuration: an optional syslog sink and the terminal sink.
#[derive(Debug)]
pub struct Log {
    pub syslog: Option<LogSysLog>,
    pub terminal: LogTerminal,
}

impl Default for Log {
    /// No syslog, default terminal settings.
    fn default() -> (r: Self)
        ensures
            r.syslog is None,
            r.terminal.enabled == true,
            r.terminal.level@ == "INFO"@,
    {
        Log { syslog: Option::None, terminal: LogTerminal::default() }
    }
}

/// Daemon-wide settings: the state database and the cleanup schedule
/// (interval in seconds).
#[derive(Debug)]
pub struct Daemon {
    pub database: String,
    pub cleanup_interval: Option<u64>,
    pub cleanup_on_startup: bool,
}

/// The whole configuration. Destinations and tasks are association lists
/// keyed by their configured names; the first entry with a name wins.
#[derive(Debug)]
pub struct Configuration {
    pub daemon: Daemon,
    pub destinations: Vec<(String, Destination)>,
    pub tasks: Vec<(String, Task)>,
    pub logging: Log,
    pub parallelism: u32,
}

/// The first entry of `m` named `k`, if any.
pub open spec fn assoc_get<T>(m: Seq<(String, T)>, k: Seq<char>) -> Option<T>
    decreases m.len(),
{
    if m.len() == 0 {
        Option::None
    } else if m[0].0@ == k {
        Option::Some(m[0].1)
    } else {
        assoc_get(m.drop_first(), k)
    }
}

/// Whether `m` has an entry named `k`.
pub open spec fn assoc_has<T>(m: Seq<(String, T)>, k: Seq<char>) -> bool {
    assoc_get(m, k) is Some
}

/// Look an entry up by name.
pub fn assoc_find<'a, T>(m: &'a Vec<(String, T)>, k: &str) -> (r: Option<&'a T>)
    ensures
        match r {
            Option::Some(t) => assoc_get(m@, k@) == Option::Some(*t),
            Option::None => assoc_get(m@, k@) is None,
        },
{
    let n = m.len();
    let mut i: usize = 0;
    proof {
        assert(m@.skip(0) =~= m@);
    }
    while i < n
        invariant
            i <= n,
            n == m@.len(),
            assoc_get(m@, k@) == assoc_get(m@.skip(i as int), k@),
        decreases n - i,
    {
        proof {
            assert(m@.skip(i as int)[0] == m@[i as int]);
            assert(m@.skip(i as int).drop_first() =~= m@.skip(i + 1));
        }
        if str_eq(m[i].0.as_str(), k) {
            return Option::Some(&m[i].1);
        }
        i = i + 1;
    }
    proof {
        assert(m@.skip(n as int) =~= Seq::<(String, T)>::empty());
    }
    Option::None
}

/// Whether an entry named `k` exists.
pub fn assoc_contains<T>(m: &Vec<(String, T)>, k: &str) -> (r: bool)
    ensures
        r == assoc_has(m@, k@),
{
    assoc_find(m, k).is_some()
}

/// The tasks that survive configuration load: those whose destination
/// name is configured. Order is kept.
pub open spec fn surviving_tasks(
    tasks: Seq<(String, Task)>,
    dests: Seq<(String, Destination)>,
) -> Seq<(String, Task)>
    decreases tasks.len(),
{
    if tasks.len() == 0 {
        Seq::empty()
    } else {
        let rest = surviving_tasks(tasks.drop_first(), dests);
        if assoc_has(dests, tasks[0].1.destination@) {
            seq![tasks[0]] + rest
        } else {
            rest
        }
    }
}

/// Drop every task that names a destination that does not exist; such
/// tasks are skipped at load time.
pub fn load_tasks(tasks: Vec<(String, Task)>, dests: &Vec<(String, Destination)>) -> (r: Vec<
    (String, Task),
>)
    ensures
        r@ == surviving_tasks(tasks@, dests@),
{
    let ghost orig = tasks@;
    let mut rest = tasks;
    let mut out: Vec<(String, Task)> = Vec::new();
    proof {
        assert(out@ + surviving_tasks(rest@, dests@) =~= surviving_tasks(orig, dests@));
    }
    while rest.len() > 0
        invariant
            out@ + surviving_tasks(rest@, dests@) == surviving_tasks(orig, dests@),
        decreases rest.len(),
    {
        let ghost pre = rest@;
        let entry = rest.remove(0);
        proof {
            assert(pre.drop_first() =~= rest@);
        }
        let keep = assoc_contains(dests, entry.1.destination.as_str());
        let ghost old_out = out@;
        if keep {
            out.push(entry);
            proof {
                assert(old_out + (seq![pre[0]] + surviving_tasks(rest@, dests@)) =~= out@
                    + surviving_tasks(rest@, dests@));
            }
        }
    }
    proof {
        assert(surviving_tasks(rest@, dests@) == Seq::<(String, Task)>::empty());
        assert(out@ + surviving_tasks(rest@, dests@) =~= out@);
    }
    out
}

/// The destination names used by at least one task, in task order.
pub fn used_destinations(tasks: &Vec<(String, Task)>) -> (r: Vec<String>)
    ensures
        r@.len() == tasks@.len(),
        forall|i: int| 0 <= i < r@.len() ==> r@[i]@ == tasks@[i].1.destination@,
{
    let n = tasks.len();
    let mut out: Vec<String> = Vec::new();
    let mut i: usize = 0;
    while i < n
        invariant
            i <= n,
            n == tasks@.len(),
            out@.len() == i,
            forall|j: int| 0 <= j < i ==> out@[j]@ == tasks@[j].1.destination@,
        decreases n - i,
    {
        out.push(tasks[i].1.destination.clone());
        i = i + 1;
    }
    out
}

/// Whether some string of `names` reads `k`.
pub open spec fn names_contain(names: Seq<String>, k: Seq<char>) -> bool {
    exists|i: int| 0 <= i < names.len() && names[i]@ == k
}

fn names_contains(names: &Vec<String>, k: &str) -> (r: bool)
    ensures
        r == names_contain(names@, k@),
{
    let n = names.len();
    let mut i: usize = 0;
    while i < n
        invariant
            i <= n,
            n == names@.len(),
            forall|j: int| 0 <= j < i ==> names@[j]@ != k@,
        decreases n - i,
    {
        if str_eq(names[i].as_str(), k) {
            return true;
        }
        i = i + 1;
    }
    false
}

/// The destinations referenced by at least one surviving task, in
/// configuration order: the set the destination registry builds pools
/// for.
pub open spec fn selected_destinations(
    dests: Seq<(String, Destination)>,
    used: Seq<String>,
) -> Seq<(String, Destination)>
    decreases dests.len(),
{
    if dests.len() == 0 {
        Seq::empty()
    } else {
        let rest = selected_destinations(dests.drop_first(), used);
        if names_contain(used, dests[0].0@) {
            seq![dests[0]] + rest
        } else {
            rest
        }
    }
}

/// Keep only the destinations whose name appears in `used`.
pub fn select_destinations(dests: Vec<(String, Destination)>, used: &Vec<String>) -> (r: Vec<
    (String, Destination),
>)
    ensures
        r@ == selected_destinations(dests@, used@),
{
    let ghost orig = dests@;
    let mut rest = dests;
    let mut out: Vec<(String, Destination)> = Vec::new();
    proof {
        assert(out@ + selected_destinations(rest@, used@) =~= selected_destinations(orig, used@));
    }
    while rest.len() > 0
        invariant
            out@ + selected_destinations(rest@, used@) == selected_destinations(orig, used@),
        decreases rest.len(),
    {
        let ghost pre = rest@;
        let entry = rest.remove(0);
        proof {
            assert(pre.drop_first() =~= rest@);
        }
        let keep = names_contains(used, entry.0.as_str());
        let ghost old_out = out@;
        if keep {
            out.push(entry);
            proof {
                assert(old_out + (seq![pre[0]] + selected_destinations(rest@, used@)) =~= out@
                    + selected_destinations(rest@, used@));
            }
        }
    }
    proof {
        assert(selected_destinations(rest@, used@) == Seq::<(String, Destination)>::empty());
        assert(out@ + selected_destinations(rest@, used@) =~= out@);
    }
    out
}

} // verus!
