//! The listeners that are running, by port: at most one for each port.

use crate::error::ServerError;
use std::collections::HashMap;
use tokio::task::{JoinError, JoinHandle};
use vstd::prelude::*;
use vstd::std_specs::hash::spec_keys_iter;
use vstd::std_specs::iter::IteratorSpec;

verus! {

broadcast use vstd::std_specs::hash::group_hash_axioms;

/// The handle of a spawned task, `tokio::task::JoinHandle`. Nothing is known of
/// what it holds.
#[verifier::external_type_specification]
#[verifier::external_body]
#[verifier::reject_recursive_types(T)]
pub struct ExJoinHandle<T>(JoinHandle<T>);

/// The error with which a task that was cancelled or has panicked ends,
/// `tokio::task::JoinError`: what awaiting a `JoinHandle` may give.
#[verifier::external_type_specification]
#[verifier::external_body]
pub struct ExJoinError(JoinError);

/// Calls `JoinHandle::abort`, which asks the runtime to cancel the task.
/// Nothing is claimed of it: the task stops when it next yields, or has ended
/// before.
#[verifier::external_body]
pub(crate) fn abort_task(task: &JoinHandle<()>) {
    task.abort()
}

/// The listeners after a start on `port` whose bind gave `task`: what ran on
/// the port before is retired, and `task` runs there.
pub open spec fn started(
    listeners: Map<u16, JoinHandle<()>>,
    port: u16,
    task: JoinHandle<()>,
) -> Map<u16, JoinHandle<()>> {
    listeners.remove(port).insert(port, task)
}

/// A start is made in two steps, `Registry::retire` and then
/// `Registry::complete_start` with the task that the bind gave. The listeners
/// after both are those of `started`, taken from the listeners before the
/// first step or from those between the two.
pub proof fn lemma_start_in_two_steps(
    listeners: Map<u16, JoinHandle<()>>,
    port: u16,
    task: JoinHandle<()>,
)
    ensures
        listeners.remove(port).insert(port, task) == started(listeners, port, task),
        started(listeners.remove(port), port, task) == started(listeners, port, task),
        started(listeners, port, task) == listeners.insert(port, task),
{
    assert(started(listeners.remove(port), port, task) =~= started(listeners, port, task));
    assert(started(listeners, port, task) =~= listeners.insert(port, task));
}

/// Two starts on one port leave one listener there, the second: the first is
/// what the second start finds on the port and retires, every other port keeps
/// its own, and the number of listeners is that of one start.
pub proof fn lemma_restart_leaves_one(
    listeners: Map<u16, JoinHandle<()>>,
    port: u16,
    first: JoinHandle<()>,
    second: JoinHandle<()>,
)
    requires
        listeners.dom().finite(),
    ensures
        started(listeners, port, first).get(port) == Some(first),
        started(started(listeners, port, first), port, second) == started(listeners, port, second),
        started(listeners, port, second).get(port) == Some(second),
        started(listeners, port, second).len() == listeners.remove(port).len() + 1,
        forall|other: u16|
            other != port ==> (#[trigger] started(listeners, port, second).contains_key(other)
                <==> listeners.contains_key(other)),
        forall|other: u16|
            other != port && listeners.contains_key(other) ==> #[trigger] started(
                listeners,
                port,
                second,
            )[other] == listeners[other],
{
    assert(started(started(listeners, port, first), port, second) =~= started(
        listeners,
        port,
        second,
    ));
}

/// Whether `listing` holds every listener of `listeners`, each once and with
/// its port.
pub open spec fn lists(
    listing: Seq<(u16, JoinHandle<()>)>,
    listeners: Map<u16, JoinHandle<()>>,
) -> bool {
    &&& listing.len() == listeners.len()
    &&& forall|i: int|
        0 <= i < listing.len() ==> listeners.contains_pair(
            (#[trigger] listing[i]).0,
            listing[i].1,
        )
    &&& forall|i: int, j: int|
        0 <= i < j < listing.len() ==> (#[trigger] listing[i]).0 != (#[trigger] listing[j]).0
}

/// The running listeners, each with the task of its accept loop.
pub struct Registry {
    listeners: HashMap<u16, JoinHandle<()>>,
}

impl View for Registry {
    type V = Map<u16, JoinHandle<()>>;

    closed spec fn view(&self) -> Map<u16, JoinHandle<()>> {
        self.listeners@
    }
}

impl Registry {
    /// A registry without listeners.
    pub fn new() -> (registry: Registry)
        ensures
            registry@ == Map::<u16, JoinHandle<()>>::empty(),
    {
        Registry { listeners: HashMap::new() }
    }

    /// The number of running listeners.
    pub fn len(&self) -> (n: usize)
        ensures
            n == self@.len(),
    {
        self.listeners.len()
    }

    /// Whether a listener runs on `port`.
    pub fn is_running(&self, port: u16) -> (running: bool)
        ensures
            running == self@.contains_key(port),
    {
        self.listeners.contains_key(&port)
    }

    /// The ports on which a listener runs, each once, in no particular order.
    pub fn ports(&self) -> (ports: Vec<u16>)
        ensures
            ports@.no_duplicates(),
            ports@.to_set() == self@.dom(),
            ports@.len() == self@.len(),
    {
        let mut ports: Vec<u16> = Vec::new();
        let ghost all = spec_keys_iter(&self.listeners).remaining().unref();
        for port in keys: self.listeners.keys()
            invariant
                keys.seq().unref() == all,
                ports@ == all.take(keys.index()),
        {
            assert(all.take(keys.index() + 1) =~= all.take(keys.index()).push(*port));
            ports.push(*port);
        }
        assert(ports@ =~= all);
        ports
    }

    /// Cancels the listener on `port`, if one runs there, and takes it out: the
    /// first step of a start, so that the port is free to bind. Gives the
    /// listener that was cancelled.
    pub fn retire(&mut self, port: u16) -> (retired: Option<JoinHandle<()>>)
        ensures
            final(self)@ == old(self)@.remove(port),
            retired == old(self)@.get(port),
    {
        let retired: Option<JoinHandle<()>> = self.listeners.remove(&port);
        match &retired {
            Some(task) => abort_task(task),
            None => {},
        }
        retired
    }

    /// Records `task` as the listener on `port`. A listener that is recorded
    /// for the port is cancelled first, so that the new one is the only one
    /// there. Gives the listener that was cancelled.
    pub fn install(&mut self, port: u16, task: JoinHandle<()>) -> (replaced: Option<
        JoinHandle<()>,
    >)
        ensures
            final(self)@ == old(self)@.insert(port, task),
            replaced == old(self)@.get(port),
    {
        let replaced: Option<JoinHandle<()>> = self.retire(port);
        self.listeners.insert(port, task);
        assert(self@ =~= old(self)@.insert(port, task));
        replaced
    }

    /// Ends a start. `bound` is what binding the port gave: the task of the
    /// accept loop, or the system's words on why the port could not be bound.
    /// A failure is reported and leaves the registry as it was. After a bind
    /// that succeeded the listeners are those of `started`: `task` runs on the
    /// port, alone.
    pub fn complete_start(&mut self, port: u16, bound: Result<JoinHandle<()>, String>) -> (result:
        Result<(), ServerError>)
        ensures
            match bound {
                Ok(task) => result is Ok && final(self)@ == old(self)@.insert(port, task)
                    && final(self)@ == started(old(self)@, port, task),
                Err(reason) => final(self)@ == old(self)@ && result == Err::<(), ServerError>(
                    ServerError::Bind { port, reason },
                ),
            },
    {
        match bound {
            Ok(task) => {
                proof {
                    lemma_start_in_two_steps(self@, port, task);
                }
                self.install(port, task);
                Ok(())
            },
            Err(reason) => Err(ServerError::Bind { port, reason }),
        }
    }

    /// Cancels every listener and takes them all out. Gives the listeners that
    /// were cancelled, each with its port. On a registry without listeners
    /// this does nothing.
    pub fn stop_all(&mut self) -> (stopped: Vec<(u16, JoinHandle<()>)>)
        ensures
            final(self)@ == Map::<u16, JoinHandle<()>>::empty(),
            lists(stopped@, old(self)@),
            old(self)@.len() == 0 ==> final(self)@ == old(self)@ && stopped@.len() == 0,
    {
        let ports: Vec<u16> = self.ports();
        let mut stopped: Vec<(u16, JoinHandle<()>)> = Vec::new();
        let mut i: usize = 0;
        while i < ports.len()
            invariant
                i <= ports@.len(),
                ports@.no_duplicates(),
                stopped@.len() == i,
                forall|j: int|
                    0 <= j < ports@.len() ==> (self@.contains_key(#[trigger] ports@[j]) <==> j
                        >= i),
                forall|port: u16| #[trigger]
                    self@.contains_key(port) ==> old(self)@.contains_key(port) && self@[port]
                        == old(self)@[port],
                forall|j: int|
                    0 <= j < i ==> (#[trigger] stopped@[j]).0 == ports@[j] && old(
                        self,
                    )@.contains_pair(stopped@[j].0, stopped@[j].1),
            decreases ports@.len() - i,
        {
            let port: u16 = ports[i];
            match self.retire(port) {
                Some(task) => stopped.push((port, task)),
                None => {},
            }
            i += 1;
        }
        proof {
            assert forall|port: u16| !self@.contains_key(port) by {
                if self@.contains_key(port) {
                    assert(ports@.to_set().contains(port));
                    let j = choose|j: int| 0 <= j < ports@.len() && ports@[j] == port;
                    assert(self@.contains_key(ports@[j]));
                }
            }
            assert(self@ =~= Map::<u16, JoinHandle<()>>::empty());
        }
        stopped
    }
}

} // verus!
