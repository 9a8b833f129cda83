//! What a local evaluation decides before it starts: what to do, with which
//! configuration, with how many workers and under which name.

use vstd::prelude::*;
use crate::cache::{first_invalid, text_view, CacheMode};
use crate::dag::dag::ExecutionDAGConfig;
use crate::search::lemma_first_position;

verus! {

/// The result of an evaluation.
#[derive(Debug, Clone, Copy, PartialEq, Eq, Structural)]
pub enum Evaluation {
    /// The evaluation has completed.
    Done,
    /// The task directory has been cleaned.
    Clean,
}

/// The options of an evaluation, as the command line gives them.
#[derive(Debug)]
pub struct Opt {
    /// Whether the machine is to be used by this evaluation alone.
    pub exclusive: bool,
    /// Whether only the description of the task is asked for.
    pub task_info: bool,
    /// Whether the task directory is to be cleaned.
    pub clean: bool,
    /// Whether the sandboxes are kept on disk after the run.
    pub keep_sandboxes: bool,
    /// Whether files are not written to their destinations.
    pub dry_run: bool,
    /// The tags that do not use the cache, between commas; nothing is cached if empty.
    pub no_cache: Option<String>,
    /// Whether compiled programs are copied to their destinations.
    pub copy_exe: bool,
    /// Whether the logs of the executions are copied.
    pub copy_logs: bool,
    /// Time granted on top of the time limits, in microseconds.
    pub extra_time: Option<i64>,
    /// The size of the store above which it is flushed, in MiB.
    pub max_cache: u64,
    /// The size to which the store is flushed, in MiB.
    pub min_cache: u64,
    /// The number of workers; that of the processors if not given.
    pub num_cores: Option<usize>,
    /// The name under which a remote scheduler knows the client.
    pub name: Option<String>,
}

/// Why an evaluation cannot start.
#[derive(Debug, PartialEq, Eq)]
pub enum EvaluationError {
    /// The exclusive use of the machine was asked for, which is not offered.
    Exclusive,
    /// The cache option names this tag, which is not a valid one.
    InvalidCacheMode(String),
    /// The extra time is negative.
    NegativeExtraTime(i64),
    /// A size of the store, in bytes, does not fit the machine.
    StoreTooLarge,
}

/// How an evaluation is set up.
#[derive(Debug)]
pub struct EvaluationSetup {
    /// How the graph is evaluated.
    pub config: ExecutionDAGConfig,
    /// The size of the store above which it is flushed, in bytes.
    pub max_store_size: u64,
    /// The size to which the store is flushed, in bytes.
    pub min_store_size: u64,
}

/// What an evaluation is to do.
#[derive(Debug)]
pub enum EvaluationPlan {
    /// Print the description of the task.
    TaskInfo,
    /// Clean the task directory.
    Clean,
    /// Evaluate the task.
    Evaluate(EvaluationSetup),
}

/// The number of bytes in a MiB.
pub const MIB: u64 = 1048576;

/// The configuration that the options ask for.
pub open spec fn configured(opt: Opt, config: ExecutionDAGConfig) -> bool {
    &&& config.keep_sandboxes == opt.keep_sandboxes
    &&& config.dry_run == opt.dry_run
    &&& config.cache_mode@ == CacheMode::for_option(text_view(opt.no_cache))
    &&& config.copy_exe == opt.copy_exe
    &&& config.copy_logs == opt.copy_logs
    &&& config.extra_time == match opt.extra_time {
        Some(time) => time as u64,
        None => 0,
    }
}

/// Whether the cache option names only valid tags.
pub open spec fn valid_cache_option(opt: Opt, valid_tags: Seq<Seq<char>>) -> bool {
    first_invalid(CacheMode::listed(text_view(opt.no_cache)), valid_tags) == CacheMode::listed(
        text_view(opt.no_cache),
    ).len()
}

/// Decides what an evaluation is to do. The checks come in this order: the
/// exclusive use of the machine is refused; the description of the task, then
/// the cleaning, are chosen where asked for; otherwise the task is evaluated,
/// unless the cache option names a tag that is not valid, the extra time is
/// negative, or a size of the store does not fit.
pub fn plan_evaluation(opt: &Opt, valid_tags: &Vec<String>) -> (plan: Result<
    EvaluationPlan,
    EvaluationError,
>)
    ensures
        match plan {
            Err(EvaluationError::Exclusive) => opt.exclusive,
            Ok(EvaluationPlan::TaskInfo) => !opt.exclusive && opt.task_info,
            Ok(EvaluationPlan::Clean) => !opt.exclusive && !opt.task_info && opt.clean,
            Err(EvaluationError::InvalidCacheMode(tag)) => {
                let tags = CacheMode::listed(text_view(opt.no_cache));
                let p = first_invalid(tags, valid_tags.deep_view());
                &&& !opt.exclusive && !opt.task_info && !opt.clean
                &&& 0 <= p < tags.len()
                &&& tag@ == tags[p]
            },
            Err(EvaluationError::NegativeExtraTime(time)) => {
                &&& !opt.exclusive && !opt.task_info && !opt.clean
                &&& valid_cache_option(*opt, valid_tags.deep_view())
                &&& opt.extra_time == Some(time)
                &&& time < 0
            },
            Err(EvaluationError::StoreTooLarge) => {
                &&& !opt.exclusive && !opt.task_info && !opt.clean
                &&& valid_cache_option(*opt, valid_tags.deep_view())
                &&& !(opt.extra_time matches Some(time) && time < 0)
                &&& (opt.max_cache * MIB > u64::MAX || opt.min_cache * MIB > u64::MAX)
            },
            Ok(EvaluationPlan::Evaluate(setup)) => {
                &&& !opt.exclusive && !opt.task_info && !opt.clean
                &&& valid_cache_option(*opt, valid_tags.deep_view())
                &&& !(opt.extra_time matches Some(time) && time < 0)
                &&& configured(*opt, setup.config)
                &&& setup.max_store_size == opt.max_cache * MIB
                &&& setup.min_store_size == opt.min_cache * MIB
            },
        },
{
    if opt.exclusive {
        return Err(EvaluationError::Exclusive);
    }
    if opt.task_info {
        return Ok(EvaluationPlan::TaskInfo);
    }
    if opt.clean {
        return Ok(EvaluationPlan::Clean);
    }
    let mut config = ExecutionDAGConfig::new();
    config.keep_sandboxes(opt.keep_sandboxes);
    config.dry_run(opt.dry_run);
    match CacheMode::try_from(&opt.no_cache, valid_tags) {
        Ok(mode) => {
            config.cache_mode(mode);
        },
        Err(tag) => {
            proof {
                lemma_first_position(
                    CacheMode::listed(text_view(opt.no_cache)).map_values(
                        |tag: Seq<char>| valid_tags.deep_view().contains(tag),
                    ),
                    false,
                );
            }
            return Err(EvaluationError::InvalidCacheMode(tag));
        },
    }
    config.copy_exe(opt.copy_exe);
    config.copy_logs(opt.copy_logs);
    if let Some(time) = opt.extra_time {
        if time < 0 {
            return Err(EvaluationError::NegativeExtraTime(time));
        }
        config.extra_time(time as u64);
    }
    let max_store_size = match opt.max_cache.checked_mul(MIB) {
        Some(size) => size,
        None => {
            return Err(EvaluationError::StoreTooLarge);
        },
    };
    let min_store_size = match opt.min_cache.checked_mul(MIB) {
        Some(size) => size,
        None => {
            return Err(EvaluationError::StoreTooLarge);
        },
    };
    Ok(EvaluationPlan::Evaluate(EvaluationSetup { config, max_store_size, min_store_size }))
}

/// Asks `num_cpus::get` for the number of processors that the process can
/// use. The number depends on the machine, so nothing is claimed about it.
#[verifier::external_body]
fn available_cpus() -> (count: usize) {
    num_cpus::get()
}

/// The number of workers of a local evaluation: the number asked for, or one
/// for each of the `available` processors.
pub fn worker_count(requested: Option<usize>, available: usize) -> (count: usize)
    ensures
        count == match requested {
            Some(count) => count,
            None => available,
        },
{
    match requested {
        Some(count) => count,
        None => available,
    }
}

/// The number of workers of a local evaluation on this machine: the number
/// asked for, or one for each processor that the machine says it has.
pub fn local_worker_count(requested: Option<usize>) -> (count: usize)
    ensures
        requested matches Some(asked) ==> count == asked,
{
    match requested {
        Some(count) => count,
        None => worker_count(None, available_cpus()),
    }
}

/// Asks `whoami::username` for the name of the user that runs the process;
/// `None` where it cannot be told. The name depends on the machine, so
/// nothing is claimed about it.
#[verifier::external_body]
fn current_username() -> (name: Option<String>) {
    whoami::username().ok()
}

/// Asks `whoami::hostname` for the name of the machine; `None` where it
/// cannot be told. The name depends on the machine, so nothing is claimed
/// about it.
#[verifier::external_body]
fn current_hostname() -> (name: Option<String>) {
    whoami::hostname().ok()
}

/// A name, or `unknown` where there is none.
pub open spec fn known_or_not(name: Option<String>) -> Seq<char> {
    match name {
        Some(name) => name@,
        None => "unknown"@,
    }
}

/// The name of a client: the name given, or else the user, an `@`, and the machine.
pub open spec fn client_name_of(
    name: Option<String>,
    user: Option<String>,
    host: Option<String>,
) -> Seq<char> {
    match name {
        Some(name) => name@,
        None => known_or_not(user) + "@"@ + known_or_not(host),
    }
}

/// The name under which a remote scheduler knows a client: the name given,
/// or else `user@host`, with `unknown` for what cannot be told.
pub fn client_name_from(name: Option<String>, user: Option<String>, host: Option<String>) -> (chosen:
    String)
    ensures
        chosen@ == client_name_of(name, user, host),
{
    match name {
        Some(name) => name,
        None => {
            let user = match user {
                Some(user) => user,
                None => "unknown".to_owned(),
            };
            let host = match host {
                Some(host) => host,
                None => "unknown".to_owned(),
            };
            user.concat("@").concat(host.as_str())
        },
    }
}

/// The name under which a remote scheduler knows this client: the name
/// given, or else the user and the machine as the system tells them.
pub fn client_name(name: Option<String>) -> (chosen: String)
    ensures
        name matches Some(given) ==> chosen@ == given@,
        name is None ==> exists|user: Option<String>, host: Option<String>| #[trigger]
            client_name_of(None, user, host) == chosen@,
{
    match name {
        Some(name) => name,
        None => {
            let user = current_username();
            let host = current_hostname();
            let chosen = client_name_from(None, user, host);
            assert(client_name_of(None, user, host) == chosen@);
            chosen
        },
    }
}

/// Whether a character is white space.
pub open spec fn is_space(c: char) -> bool {
    let code = c as u32;
    ||| 0x09 <= code <= 0x0d
    ||| code == 0x20
    ||| code == 0x85
    ||| code == 0xa0
    ||| code == 0x1680
    ||| 0x2000 <= code <= 0x200a
    ||| code == 0x2028
    ||| code == 0x2029
    ||| code == 0x202f
    ||| code == 0x205f
    ||| code == 0x3000
}

/// Whether a line of input says yes: it holds a `y`, small or capital,
/// between nothing but white space.
pub open spec fn says_yes(line: Seq<char>) -> bool {
    exists|i: int|
        {
            &&& 0 <= i < line.len()
            &&& (#[trigger] line[i] == 'y' || line[i] == 'Y')
            &&& forall|j: int| 0 <= j < line.len() && j != i ==> is_space(#[trigger] line[j])
        }
}

/// Whether a character is white space.
fn space(c: char) -> (space: bool)
    ensures
        space == is_space(c),
{
    let code = c as u32;
    (0x09 <= code && code <= 0x0d) || code == 0x20 || code == 0x85 || code == 0xa0 || code == 0x1680
        || (0x2000 <= code && code <= 0x200a) || code == 0x2028 || code == 0x2029 || code == 0x202f
        || code == 0x205f || code == 0x3000
}

/// Whether the answer to the question before the store is wiped says yes.
pub fn is_confirmation(line: &str) -> (yes: bool)
    ensures
        yes == says_yes(line@),
{
    let n = line.unicode_len();
    let mut found: Option<usize> = None;
    let mut i: usize = 0;
    while i < n
        invariant
            n == line@.len(),
            i <= n,
            match found {
                Some(p) => p < i && (line@[p as int] == 'y' || line@[p as int] == 'Y') && forall|
                    j: int,
                | 0 <= j < i && j != p ==> is_space(#[trigger] line@[j]),
                None => forall|j: int| 0 <= j < i ==> is_space(#[trigger] line@[j]),
            },
        decreases n - i,
    {
        let c = line.get_char(i);
        if !space(c) {
            if found.is_none() && (c == 'y' || c == 'Y') {
                found = Some(i);
            } else {
                proof {
                    assert(!says_yes(line@)) by {
                        if says_yes(line@) {
                            let q = choose|q: int|
                                {
                                    &&& 0 <= q < line@.len()
                                    &&& (#[trigger] line@[q] == 'y' || line@[q] == 'Y')
                                    &&& forall|j: int|
                                        0 <= j < line@.len() && j != q ==> is_space(
                                            #[trigger] line@[j],
                                        )
                                };
                            if q == i {
                                assert(is_space(line@[found->0 as int]));
                                assert(!is_space('y') && !is_space('Y'));
                            } else {
                                assert(is_space(line@[i as int]));
                            }
                        }
                    }
                }
                return false;
            }
        }
        i += 1;
    }
    match found {
        Some(p) => {
            assert(line@[p as int] == 'y' || line@[p as int] == 'Y');
            true
        },
        None => {
            proof {
                assert(!is_space('y') && !is_space('Y'));
                assert(!says_yes(line@)) by {
                    if says_yes(line@) {
                        let q = choose|q: int|
                            {
                                &&& 0 <= q < line@.len()
                                &&& (#[trigger] line@[q] == 'y' || line@[q] == 'Y')
                                &&& forall|j: int|
                                    0 <= j < line@.len() && j != q ==> is_space(#[trigger] line@[j])
                            };
                        assert(is_space(line@[q]));
                    }
                }
            }
            false
        },
    }
}

} // verus!
