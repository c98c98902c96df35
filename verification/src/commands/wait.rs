//! The wait subcommand: wait for processes to complete, with an optional timeout.

use vstd::prelude::*;
use std::collections::HashSet;
use vstd::std_specs::hash::spec_hash_keys_iter;
use vstd::std_specs::iter::IteratorSpec;
use crate::errors::StandbyError;
use crate::time::Duration;
use crate::time::parser::{parse_duration, parse_fails, parse_spec, reports};

verus! {

/// Arguments for the wait subcommand.
pub struct WaitArgs {
    /// Process ID(s) to wait for.
    pub pids: Vec<u32>,
    /// Optional timeout duration.
    pub timeout: Option<String>,
}

/// The processes to wait for and the time limit, if any.
pub struct WaitPlan {
    /// The set of process IDs.
    pub pids: HashSet<u32>,
    /// The time limit, as `to_std_duration` gives it.
    pub timeout: Option<Duration>,
}

/// `p` is the plan for the arguments `a`: the set of the IDs of `a` and its
/// parsed timeout.
pub open spec fn plan_of(a: WaitArgs, p: WaitPlan) -> bool {
    &&& a.pids@.len() > 0
    &&& p.pids@ == a.pids@.to_set()
    &&& match a.timeout {
        None => p.timeout is None,
        Some(t) => parse_spec(t@) matches Ok(d) && p.timeout == Some(d.limit_of()),
    }
}

/// `e` is why the arguments `a` are refused: no IDs, else a bad timeout.
pub open spec fn refusal_of(a: WaitArgs, e: StandbyError) -> bool {
    if a.pids@.len() == 0 {
        e matches StandbyError::InvalidArgument(m) && m@ == "At least one PID must be specified"@
    } else {
        a.timeout matches Some(t) && parse_spec(t@) matches Err(f) && reports(e, f)
    }
}

/// Reads the arguments: at least one process ID, and the timeout if given.
pub fn execute(args: &WaitArgs) -> (r: Result<WaitPlan, StandbyError>)
    requires
        args.pids.len() > 0 ==> (args.timeout matches Some(t) ==> !parse_fails(t@)),
    ensures
        match r {
            Ok(p) => plan_of(*args, p),
            Err(e) => refusal_of(*args, e),
        },
{
    if args.pids.len() == 0 {
        return Err(
            StandbyError::InvalidArgument(String::from_str("At least one PID must be specified")),
        );
    }
    let timeout = match &args.timeout {
        Some(t) => match parse_duration(t.as_str()) {
            Ok(d) => Some(d.std_limit()),
            Err(e) => {
                return Err(e);
            },
        },
        None => None,
    };
    let pids = pid_set(&args.pids);
    Ok(WaitPlan { pids, timeout })
}

/// The set of the IDs in `v`.
pub fn pid_set(v: &Vec<u32>) -> (r: HashSet<u32>)
    ensures
        r@ == v@.to_set(),
{
    broadcast use vstd::std_specs::hash::group_hash_axioms;

    let mut r: HashSet<u32> = HashSet::new();
    let mut i: usize = 0;
    while i < v.len()
        invariant
            i <= v.len(),
            r@ == v@.take(i as int).to_set(),
        decreases v.len() - i,
    {
        proof {
            assert(v@.take(i + 1) == v@.take(i as int).push(v@[i as int]));
            v@.take(i as int).lemma_push_to_set_commute(v@[i as int]);
        }
        r.insert(v[i]);
        i = i + 1;
    }
    proof {
        assert(v@.take(v.len() as int) == v@);
    }
    r
}

/// The IDs of `remaining`, each once, in the order the set is walked (which
/// this contract leaves open).
pub fn probe_list(remaining: &HashSet<u32>) -> (r: Vec<u32>)
    ensures
        r@.to_set() == remaining@,
        r@.no_duplicates(),
{
    broadcast use vstd::std_specs::hash::group_hash_axioms;

    let ghost all: Seq<u32> = spec_hash_keys_iter(remaining).remaining().unref();
    proof {
        assert(spec_hash_keys_iter(remaining).remaining().unref().to_set() == remaining@);
        assert(spec_hash_keys_iter(remaining).remaining().no_duplicates());
    }
    let mut r: Vec<u32> = Vec::new();
    for x in it: remaining.iter()
        invariant
            it.seq() == spec_hash_keys_iter(remaining).remaining(),
            all == it.seq().unref(),
            r@ == all.take(it.index()),
    {
        r.push(*x);
    }
    proof {
        assert(r@ == all);
    }
    r
}

/// What waiting found of one process.
pub enum PidStatus {
    /// It exited or was killed by a signal (and is now reaped).
    Ended,
    /// It is still there (running, stopped or otherwise not ended).
    Alive,
    /// Waiting for it failed: not a child, or already reaped.
    Gone,
}

/// The processes that a round settles: those of `probed` whose status in `st`
/// is not `Alive` (they ended, or are gone).
pub open spec fn settled(probed: Seq<u32>, st: Seq<PidStatus>) -> Set<u32> {
    Set::new(
        |x: u32|
            exists|i: int|
                0 <= i < probed.len() && i < st.len() && #[trigger] probed[i] == x && !(
                st[i] is Alive),
    )
}

/// Settling one more entry: its process joins the settled ones unless alive.
proof fn lemma_settled_step(probed: Seq<u32>, st: Seq<PidStatus>, i: int)
    requires
        0 <= i < probed.len(),
        probed.len() == st.len(),
    ensures
        settled(probed.take(i + 1), st.take(i + 1)) == if st[i] is Alive {
            settled(probed.take(i), st.take(i))
        } else {
            settled(probed.take(i), st.take(i)).insert(probed[i])
        },
{
    let a = settled(probed.take(i + 1), st.take(i + 1));
    let b = settled(probed.take(i), st.take(i));
    assert forall|x: u32| b.contains(x) implies a.contains(x) by {
        let k = choose|k: int|
            0 <= k < probed.take(i).len() && k < st.take(i).len() && #[trigger] probed.take(i)[k]
                == x && !(st.take(i)[k] is Alive);
        assert(probed.take(i + 1)[k] == x);
        assert(st.take(i + 1)[k] == st.take(i)[k]);
    }
    assert forall|x: u32| a.contains(x) implies b.contains(x) || (x == probed[i] && !(
    st[i] is Alive)) by {
        let k = choose|k: int|
            0 <= k < probed.take(i + 1).len() && k < st.take(i + 1).len() && #[trigger] probed.take(
                i + 1,
            )[k] == x && !(st.take(i + 1)[k] is Alive);
        if k < i {
            assert(probed.take(i)[k] == x);
            assert(st.take(i)[k] == st.take(i + 1)[k]);
        }
    }
    if !(st[i] is Alive) {
        assert(probed.take(i + 1)[i] == probed[i]);
        assert(st.take(i + 1)[i] == st[i]);
        assert(a =~= b.insert(probed[i]));
    } else {
        assert(a =~= b);
    }
}

/// One round of waiting: the processes of `probed` found ended or gone leave
/// `remaining`, and the round tells whether to go on, which is when some
/// process was found at all (ended or alive).
pub fn wait_round(remaining: &mut HashSet<u32>, probed: &Vec<u32>, statuses: &Vec<PidStatus>) -> (found: bool)
    requires
        statuses.len() == probed.len(),
    ensures
        final(remaining)@ == old(remaining)@.difference(settled(probed@, statuses@)),
        found == exists|i: int| 0 <= i < statuses.len() && !(statuses@[i] is Gone),
{
    broadcast use vstd::std_specs::hash::group_hash_axioms;

    let mut found = false;
    let mut i: usize = 0;
    proof {
        assert(settled(probed@.take(0), statuses@.take(0)) =~= Set::<u32>::empty());
        assert(old(remaining)@.difference(Set::<u32>::empty()) =~= old(remaining)@);
    }
    while i < probed.len()
        invariant
            statuses.len() == probed.len(),
            i <= probed.len(),
            remaining@ == old(remaining)@.difference(
                settled(probed@.take(i as int), statuses@.take(i as int)),
            ),
            found == exists|k: int| 0 <= k < i && !(statuses@[k] is Gone),
        decreases probed.len() - i,
    {
        proof {
            lemma_settled_step(probed@, statuses@, i as int);
        }
        match statuses[i] {
            PidStatus::Ended => {
                remaining.remove(&probed[i]);
                found = true;
            },
            PidStatus::Alive => {
                found = true;
            },
            PidStatus::Gone => {
                remaining.remove(&probed[i]);
            },
        }
        proof {
            let s0 = settled(probed@.take(i as int), statuses@.take(i as int));
            if !(statuses@[i as int] is Alive) {
                assert(remaining@ =~= old(remaining)@.difference(s0.insert(probed@[i as int])));
            }
        }
        i = i + 1;
    }
    proof {
        assert(probed@.take(probed.len() as int) == probed@);
        assert(statuses@.take(statuses.len() as int) == statuses@);
    }
    found
}

/// What the wait loop does at the top of a round.
pub enum WaitStep {
    /// Every process is accounted for: return successfully.
    Done,
    /// The timeout has passed: return this error.
    Stop(StandbyError),
    /// Probe the remaining processes.
    Probe,
}

/// The top of a round: done when nothing remains, else a timeout error
/// ("Timeout waiting for processes") once `elapsed` reaches the timeout, else probe.
pub fn wait_step(remaining: usize, timeout: Option<Duration>, elapsed: Duration) -> (r: WaitStep)
    ensures
        remaining == 0 ==> r is Done,
        remaining > 0 ==> match timeout {
            Some(t) => if elapsed.reaches(t) {
                r matches WaitStep::Stop(StandbyError::ProcessError(m)) && m@
                    == "Timeout waiting for processes"@
            } else {
                r is Probe
            },
            None => r is Probe,
        },
{
    if remaining == 0 {
        return WaitStep::Done;
    }
    match timeout {
        Some(t) => {
            if elapsed.has_reached(&t) {
                WaitStep::Stop(
                    StandbyError::ProcessError(String::from_str("Timeout waiting for processes")),
                )
            } else {
                WaitStep::Probe
            }
        },
        None => WaitStep::Probe,
    }
}

/// A round never adds a process to those waited for; of distinct probed
/// processes, one found alive is still waited for and one found ended or gone
/// is not.
pub proof fn law_round_shrinks(rem: Set<u32>, probed: Seq<u32>, st: Seq<PidStatus>)
    requires
        probed.len() == st.len(),
        probed.no_duplicates(),
    ensures
        rem.difference(settled(probed, st)).subset_of(rem),
        forall|i: int|
            0 <= i < probed.len() && st[i] is Alive && rem.contains(probed[i]) ==> rem.difference(
                settled(probed, st),
            ).contains(#[trigger] probed[i]),
        forall|i: int|
            0 <= i < probed.len() && !(st[i] is Alive) ==> !rem.difference(
                settled(probed, st),
            ).contains(#[trigger] probed[i]),
{
    assert forall|i: int|
        0 <= i < probed.len() && st[i] is Alive && rem.contains(probed[i]) implies rem.difference(
        settled(probed, st),
    ).contains(#[trigger] probed[i]) by {
        if settled(probed, st).contains(probed[i]) {
            let k = choose|k: int|
                0 <= k < probed.len() && k < st.len() && #[trigger] probed[k] == probed[i] && !(
                st[k] is Alive);
            assert(k != i);
        }
    }
}

} // verus!
