//! A registry of named child scopes.
//!
//! It owns the scopes it was given. A name is claimed before its scope is made, so that of several
//! who want one name exactly one gets it; it stays claimed while the scope is being closed. Once
//! the registry is shutting down, no scope is published in it any more.

use vstd::prelude::*;

use crate::error::{Error, ErrorKind};
use crate::id::TaskId;
use crate::runtime::StopOutcome;
use crate::text::same_text;

verus! {

/// What is registered under a name. `R` is the owner of a scope.
pub enum Slot<R> {
    /// The name is claimed, and the scope is being made.
    Reserved,
    /// The scope is running.
    Running(R),
    /// The scope is being closed: somebody is at it, or, where the owner is here, it was blocked
    /// and can be closed again.
    Closing(Option<R>),
}

/// What can go wrong with the registry.
#[derive(Debug)]
pub enum RegistryError<C> {
    /// The registry has no parent scope yet, or was given a second one.
    Unbound,
    /// The name is taken.
    AlreadyExists(String),
    /// There is no such name.
    NotFound(String),
    /// Somebody is opening or closing the scope of this name.
    Busy(String),
    /// The registry is shutting down.
    ShuttingDown,
    /// The scope itself failed.
    Scope(Error<C>),
}

impl<C> RegistryError<C> {
    /// How the error is shown.
    pub open spec fn text(self) -> Seq<char> {
        match self {
            RegistryError::Unbound => "registry is not bound to a parent context"@,
            RegistryError::AlreadyExists(name) => "scope `"@ + name@ + "` already exists"@,
            RegistryError::NotFound(name) => "scope `"@ + name@ + "` not found"@,
            RegistryError::Busy(name) => "scope `"@ + name@ + "` is being opened or closed"@,
            RegistryError::ShuttingDown => "registry is shutting down"@,
            RegistryError::Scope(error) => "scope error: "@ + error.text(),
        }
    }

    /// Shows the error as [`RegistryError::text`] says.
    pub fn to_text(&self) -> (s: String)
        ensures
            s@ == self.text(),
    {
        match self {
            RegistryError::Unbound => String::from_str(
                "registry is not bound to a parent context",
            ),
            RegistryError::AlreadyExists(name) => {
                let mut s = String::from_str("scope `");
                s.append(name.as_str());
                s.append("` already exists");
                s
            },
            RegistryError::NotFound(name) => {
                let mut s = String::from_str("scope `");
                s.append(name.as_str());
                s.append("` not found");
                s
            },
            RegistryError::Busy(name) => {
                let mut s = String::from_str("scope `");
                s.append(name.as_str());
                s.append("` is being opened or closed");
                s
            },
            RegistryError::ShuttingDown => String::from_str("registry is shutting down"),
            RegistryError::Scope(error) => {
                let mut s = String::from_str("scope error: ");
                error.push_text(&mut s);
                s
            },
        }
    }
}

/// How the closing of a scope ended, in short.
#[derive(Debug, Clone, Copy, PartialEq, Eq, Structural)]
pub enum CloseStatus {
    /// The scope is stopped, without an error.
    Clean,
    /// The scope is stopped, and tasks were cancelled because the time ran out.
    Aborted,
    /// The scope is stopped, with other errors.
    Failed,
    /// The scope is not stopped: child scopes of its own still hold leases. It stays in the
    /// registry and can be closed again.
    Blocked,
}

/// How the closing of a scope ended.
#[derive(Debug)]
pub struct CloseReport<C> {
    pub outcome: StopOutcome<C>,
    /// The outcome in short.
    pub status: CloseStatus,
}

/// Whether the error says that a task was cancelled because the time ran out.
pub open spec fn tells_of_abort<C>(error: Error<C>) -> bool {
    error.kind is TaskAborted
}

/// The ids of the tasks that the first `k` errors say were cancelled.
pub open spec fn aborted_ids<C>(errors: Seq<Error<C>>, k: nat) -> Seq<TaskId>
    decreases k,
{
    if k == 0 {
        Seq::empty()
    } else {
        let before = aborted_ids(errors, (k - 1) as nat);
        match errors[k - 1].kind {
            ErrorKind::TaskAborted { task_id } => before.push(task_id),
            _ => before,
        }
    }
}

/// An outcome in short.
pub open spec fn status_is<C>(outcome: StopOutcome<C>) -> CloseStatus {
    let errors = outcome.errors_are();
    if outcome is Blocked {
        CloseStatus::Blocked
    } else if exists|i: int| 0 <= i < errors.len() && tells_of_abort(#[trigger] errors[i]) {
        CloseStatus::Aborted
    } else if errors.len() == 0 {
        CloseStatus::Clean
    } else {
        CloseStatus::Failed
    }
}

impl<C> CloseReport<C> {
    /// The report of an outcome.
    pub fn derive(outcome: StopOutcome<C>) -> (report: Self)
        ensures
            report.outcome == outcome,
            report.status == status_is(outcome),
    {
        let status = CloseReport::status_of(&outcome);
        CloseReport { outcome, status }
    }

    /// An outcome in short. That the time ran out explains the other errors, so it comes before
    /// them.
    pub fn status_of(outcome: &StopOutcome<C>) -> (status: CloseStatus)
        ensures
            status == status_is(*outcome),
    {
        if outcome.blockers().is_some() {
            return CloseStatus::Blocked;
        }
        let errors = outcome.errors();
        let mut i: usize = 0;
        while i < errors.len()
            invariant
                i <= errors@.len(),
                errors@ == outcome.errors_are(),
                !(outcome is Blocked),
                forall|k: int| 0 <= k < i ==> !tells_of_abort(#[trigger] errors@[k]),
            decreases errors@.len() - i,
        {
            if matches!(errors[i].kind, ErrorKind::TaskAborted { .. }) {
                assert(tells_of_abort(errors@[i as int]));
                return CloseStatus::Aborted;
            }
            i = i + 1;
        }
        if errors.len() == 0 {
            CloseStatus::Clean
        } else {
            CloseStatus::Failed
        }
    }

    /// Whether the scope is stopped, without an error.
    pub fn is_clean(&self) -> (clean: bool)
        ensures
            clean == (self.status == CloseStatus::Clean),
    {
        self.status == CloseStatus::Clean
    }

    /// The ids of the tasks that were cancelled because the time ran out.
    pub fn aborted_tasks(&self) -> (ids: Vec<TaskId>)
        ensures
            ids@ == aborted_ids(self.outcome.errors_are(), self.outcome.errors_are().len()),
    {
        let errors = self.outcome.errors();
        let mut ids: Vec<TaskId> = Vec::new();
        let mut i: usize = 0;
        while i < errors.len()
            invariant
                i <= errors@.len(),
                ids@ == aborted_ids(errors@, i as nat),
            decreases errors@.len() - i,
        {
            match &errors[i].kind {
                ErrorKind::TaskAborted { task_id } => {
                    ids.push(*task_id);
                },
                _ => {},
            }
            i = i + 1;
        }
        ids
    }
}

/// How the closing of all scopes ended.
#[derive(Debug)]
pub struct CloseAllReport<C> {
    /// The scopes whose stop was run, with its report. One that is blocked is among them.
    pub closed: Vec<(String, CloseReport<C>)>,
    /// The scopes whose stop could not be run.
    pub failed: Vec<(String, RegistryError<C>)>,
}

impl<C> Default for CloseAllReport<C> {
    fn default() -> (report: Self)
        ensures
            report.closed@.len() == 0,
            report.failed@.len() == 0,
    {
        CloseAllReport { closed: Vec::new(), failed: Vec::new() }
    }
}

impl<C> CloseAllReport<C> {
    /// Adds what came of closing one scope.
    pub fn record(&mut self, name: String, result: Result<CloseReport<C>, RegistryError<C>>)
        ensures
            match result {
                Ok(report) => final(self).closed@ == old(self).closed@.push((name, report))
                    && final(self).failed == old(self).failed,
                Err(error) => final(self).failed@ == old(self).failed@.push((name, error))
                    && final(self).closed == old(self).closed,
            },
    {
        match result {
            Ok(report) => {
                self.closed.push((name, report));
            },
            Err(error) => {
                self.failed.push((name, error));
            },
        }
    }

    /// Whether all scopes are stopped, without an error.
    pub fn is_clean(&self) -> (clean: bool)
        ensures
            clean == (self.failed@.len() == 0 && forall|i: int|
                0 <= i < self.closed@.len() ==> (#[trigger] self.closed@[i]).1.status
                    == CloseStatus::Clean),
    {
        if self.failed.len() > 0 {
            return false;
        }
        let mut i: usize = 0;
        while i < self.closed.len()
            invariant
                i <= self.closed@.len(),
                self.failed@.len() == 0,
                forall|k: int|
                    0 <= k < i ==> (#[trigger] self.closed@[k]).1.status == CloseStatus::Clean,
            decreases self.closed@.len() - i,
        {
            if !self.closed[i].1.is_clean() {
                return false;
            }
            i = i + 1;
        }
        true
    }
}

/// A name and what is registered under it.
pub struct NamedSlot<R> {
    pub name: String,
    pub slot: Slot<R>,
}

/// The named child scopes. `P` is a handle on the parent scope, and `R` the owner of a child scope.
pub struct ScopeRegistry<P, R> {
    pub parent: Option<P>,
    pub entries: Vec<NamedSlot<R>>,
    pub shutting_down: bool,
}

/// Whether `entries` has the name at position `i`.
pub open spec fn named_at<R>(entries: Seq<NamedSlot<R>>, name: Seq<char>, i: int) -> bool {
    0 <= i < entries.len() && entries[i].name@ == name
}

/// Whether `entries` hold a name.
pub open spec fn has_in<R>(entries: Seq<NamedSlot<R>>, name: Seq<char>) -> bool {
    exists|i: int| #[trigger] named_at(entries, name, i)
}

/// What `entries` hold under a name.
pub open spec fn slot_in<R>(entries: Seq<NamedSlot<R>>, name: Seq<char>) -> Slot<R> {
    entries[choose|i: int| #[trigger] named_at(entries, name, i)].slot
}

/// What `entries` hold, by name.
pub open spec fn slots_in<R>(entries: Seq<NamedSlot<R>>) -> Map<Seq<char>, Slot<R>> {
    Map::new(|name: Seq<char>| has_in(entries, name), |name: Seq<char>| slot_in(entries, name))
}

impl<P, R> ScopeRegistry<P, R> {
    /// No name is registered twice.
    pub open spec fn wf(self) -> bool {
        forall|i: int, j: int|
            0 <= i < j < self.entries@.len() ==> (#[trigger] self.entries@[i]).name@ != (
            #[trigger] self.entries@[j]).name@
    }

    /// Whether the name is registered.
    #[verifier::inline]
    pub open spec fn has(self, name: Seq<char>) -> bool {
        has_in(self.entries@, name)
    }

    /// What is registered under a name.
    #[verifier::inline]
    pub open spec fn slot(self, name: Seq<char>) -> Slot<R> {
        slot_in(self.entries@, name)
    }

    /// What is registered, by name.
    pub open spec fn slots(self) -> Map<Seq<char>, Slot<R>> {
        slots_in(self.entries@)
    }

    proof fn lemma_slot_at(self, i: int)
        requires
            self.wf(),
            0 <= i < self.entries@.len(),
        ensures
            self.has(self.entries@[i].name@),
            self.slot(self.entries@[i].name@) == self.entries@[i].slot,
    {
        let name = self.entries@[i].name@;
        assert(named_at(self.entries@, name, i));
        let k = choose|k: int| #[trigger] named_at(self.entries@, name, k);
        assert(named_at(self.entries@, name, k));
        if k < i {
            assert(self.entries@[k].name@ != self.entries@[i].name@);
        } else if i < k {
            assert(self.entries@[i].name@ != self.entries@[k].name@);
        }
    }

    /// An empty registry, without a parent scope.
    pub fn new() -> (registry: Self)
        ensures
            registry.wf(),
            registry.parent is None,
            !registry.shutting_down,
            registry.slots() == Map::<Seq<char>, Slot<R>>::empty(),
    {
        let registry = ScopeRegistry { parent: None, entries: Vec::new(), shutting_down: false };
        assert(registry.slots() =~= Map::empty());
        registry
    }

    /// Gives the registry its parent scope. That can be done once.
    pub fn bind<C>(&mut self, parent: P) -> (result: Result<(), RegistryError<C>>)
        ensures
            old(self).wf() ==> final(self).wf(),
            final(self).entries == old(self).entries,
            final(self).slots() == old(self).slots(),
            final(self).shutting_down == old(self).shutting_down,
            match old(self).parent {
                None => result is Ok && final(self).parent == Some(parent),
                Some(_) => result == Err::<(), RegistryError<C>>(RegistryError::Unbound)
                    && final(self).parent == old(self).parent,
            },
    {
        match &self.parent {
            Some(_) => Err(RegistryError::Unbound),
            None => {
                self.parent = Some(parent);
                Ok(())
            },
        }
    }

    /// The parent scope.
    pub fn parent<C>(&self) -> (parent: Result<&P, RegistryError<C>>)
        ensures
            parent == match self.parent {
                Some(parent) => Ok(&parent),
                None => Err(RegistryError::<C>::Unbound),
            },
    {
        match &self.parent {
            Some(parent) => Ok(parent),
            None => Err(RegistryError::Unbound),
        }
    }

    fn find(&self, name: &str) -> (index: Option<usize>)
        requires
            self.wf(),
        ensures
            match index {
                Some(i) => i < self.entries@.len() && self.entries@[i as int].name@ == name@
                    && self.has(name@) && self.slot(name@) == self.entries@[i as int].slot,
                None => !self.has(name@),
            },
    {
        let mut i: usize = 0;
        while i < self.entries.len()
            invariant
                self.wf(),
                i <= self.entries@.len(),
                forall|k: int| 0 <= k < i ==> (#[trigger] self.entries@[k]).name@ != name@,
            decreases self.entries@.len() - i,
        {
            if same_text(self.entries[i].name.as_str(), name) {
                proof {
                    self.lemma_slot_at(i as int);
                }
                return Some(i);
            }
            i = i + 1;
        }
        None
    }

    /// Registers `slot` under `name`, in place of what is there.
    fn put(&mut self, name: &str, slot: Slot<R>)
        requires
            old(self).wf(),
        ensures
            final(self).wf(),
            final(self).slots() == old(self).slots().insert(name@, slot),
            final(self).parent == old(self).parent,
            final(self).shutting_down == old(self).shutting_down,
    {
        match self.find(name) {
            Some(i) => {
                let ghost before = *self;
                let owned = self.entries[i].name.clone();
                self.entries.set(i, NamedSlot { name: owned, slot });
                proof {
                    assert forall|n: Seq<char>| self.has(n) == before.has(n) by {
                        if before.has(n) {
                            let k = choose|k: int| #[trigger] named_at(before.entries@, n, k);
                            assert(named_at(self.entries@, n, k));
                        }
                        if self.has(n) {
                            let k = choose|k: int| #[trigger] named_at(self.entries@, n, k);
                            assert(named_at(before.entries@, n, k));
                        }
                    }
                    assert forall|n: Seq<char>| #[trigger] self.has(n) && n
                        != name@ implies self.slot(n) == before.slot(n) by {
                        let k = choose|k: int| #[trigger] named_at(self.entries@, n, k);
                        assert(named_at(self.entries@, n, k));
                        self.lemma_slot_at(k);
                        before.lemma_slot_at(k);
                    }
                    self.lemma_slot_at(i as int);
                    assert(self.slots() =~= before.slots().insert(name@, slot));
                }
            },
            None => {
                let ghost before = *self;
                self.entries.push(NamedSlot { name: String::from_str(name), slot });
                proof {
                    let last = self.entries@.len() - 1;
                    assert forall|i: int, j: int| 0 <= i < j < self.entries@.len() implies (
                    #[trigger] self.entries@[i]).name@ != (#[trigger] self.entries@[j]).name@ by {
                        assert(self.entries@[i] == before.entries@[i]);
                        if j == last {
                            assert(!named_at(before.entries@, name@, i));
                        } else {
                            assert(self.entries@[j] == before.entries@[j]);
                        }
                    }
                    self.lemma_slot_at(last);
                    assert forall|n: Seq<char>| n != name@ implies self.has(n) == before.has(n) by {
                        if before.has(n) {
                            let k = choose|k: int| #[trigger] named_at(before.entries@, n, k);
                            assert(named_at(self.entries@, n, k));
                        }
                        if self.has(n) {
                            let k = choose|k: int| #[trigger] named_at(self.entries@, n, k);
                            assert(named_at(before.entries@, n, k));
                        }
                    }
                    assert forall|n: Seq<char>| #[trigger] before.has(n) implies self.slot(n)
                        == before.slot(n) by {
                        let k = choose|k: int| #[trigger] named_at(before.entries@, n, k);
                        assert(named_at(before.entries@, n, k));
                        self.lemma_slot_at(k);
                        before.lemma_slot_at(k);
                    }
                    assert(self.slots() =~= before.slots().insert(name@, slot));
                }
            },
        }
    }

    /// Takes out what is registered under `name`, if anything is.
    fn take_out(&mut self, name: &str) -> (slot: Option<Slot<R>>)
        requires
            old(self).wf(),
        ensures
            final(self).wf(),
            final(self).slots() == old(self).slots().remove(name@),
            final(self).parent == old(self).parent,
            final(self).shutting_down == old(self).shutting_down,
            slot == if old(self).has(name@) {
                Some(old(self).slot(name@))
            } else {
                None
            },
    {
        match self.find(name) {
            Some(i) => {
                let ghost before = *self;
                let entry = self.entries.remove(i);
                proof {
                    assert forall|a: int, b: int| 0 <= a < b < self.entries@.len() implies (
                    #[trigger] self.entries@[a]).name@ != (#[trigger] self.entries@[b]).name@ by {
                        let x = if a < i {
                            a
                        } else {
                            a + 1
                        };
                        let y = if b < i {
                            b
                        } else {
                            b + 1
                        };
                        assert(self.entries@[a] == before.entries@[x]);
                        assert(self.entries@[b] == before.entries@[y]);
                    }
                    assert forall|n: Seq<char>| self.has(n) == (before.has(n) && n != name@) by {
                        if before.has(n) && n != name@ {
                            let k = choose|k: int| #[trigger] named_at(before.entries@, n, k);
                            assert(named_at(before.entries@, n, k));
                            if k < i {
                                assert(named_at(self.entries@, n, k));
                            } else {
                                assert(named_at(self.entries@, n, k - 1));
                            }
                        }
                        if self.has(n) {
                            let k = choose|k: int| #[trigger] named_at(self.entries@, n, k);
                            assert(named_at(self.entries@, n, k));
                            let x = if k < i {
                                k
                            } else {
                                k + 1
                            };
                            assert(named_at(before.entries@, n, x));
                            if x < i {
                                assert(before.entries@[x].name@ != before.entries@[i as int].name@);
                            } else {
                                assert(before.entries@[i as int].name@ != before.entries@[x].name@);
                            }
                        }
                    }
                    assert forall|n: Seq<char>| #[trigger] self.has(n) implies self.slot(n)
                        == before.slot(n) by {
                        let k = choose|k: int| #[trigger] named_at(self.entries@, n, k);
                        assert(named_at(self.entries@, n, k));
                        let x = if k < i {
                            k
                        } else {
                            k + 1
                        };
                        self.lemma_slot_at(k);
                        before.lemma_slot_at(x);
                    }
                    assert(self.slots() =~= before.slots().remove(name@));
                }
                Some(entry.slot)
            },
            None => {
                assert(self.slots() =~= self.slots().remove(name@));
                None
            },
        }
    }
}

impl<P, R> ScopeRegistry<P, R> {
    /// Whether every scope that runs in `after` ran in `self`.
    pub open spec fn nothing_new_runs(self, after: Self) -> bool {
        forall|name: Seq<char>| #[trigger]
            after.slots().contains_key(name) && after.slots()[name] is Running
                ==> self.slots().contains_key(name) && self.slots()[name] is Running
    }

    /// What claiming a name leads to: it is registered as claimed where it was free and scopes can
    /// be made; else nothing changes, and the error says why.
    pub open spec fn claims<C>(
        self,
        name: Seq<char>,
        result: Result<(), RegistryError<C>>,
        after: Self,
    ) -> bool {
        &&& after.parent == self.parent
        &&& after.shutting_down == self.shutting_down
        &&& self.nothing_new_runs(after)
        &&& result is Ok <==> self.parent is Some && !self.shutting_down
            && !self.slots().contains_key(name)
        &&& result matches Err(error) ==> {
            &&& after == self
            &&& if self.parent is None {
                error is Unbound
            } else if self.shutting_down {
                error is ShuttingDown
            } else {
                error matches RegistryError::AlreadyExists(n) && n@ == name
            }
        }
        &&& result is Ok ==> after.slots() == self.slots().insert(name, Slot::<R>::Reserved)
    }

    /// What taking the owner of a scope to be closed leads to: the name stays registered meanwhile.
    pub open spec fn closing_begins<C>(
        self,
        name: Seq<char>,
        result: Result<R, RegistryError<C>>,
        after: Self,
    ) -> bool {
        &&& after.parent == self.parent
        &&& after.shutting_down == self.shutting_down
        &&& self.nothing_new_runs(after)
        &&& if !self.slots().contains_key(name) {
            result matches Err(RegistryError::NotFound(n)) && n@ == name
        } else {
            match self.slots()[name] {
                Slot::Running(owner) => result == Ok::<R, RegistryError<C>>(owner),
                Slot::Closing(Some(owner)) => result == Ok::<R, RegistryError<C>>(owner),
                Slot::Reserved | Slot::Closing(None) => result matches Err(RegistryError::Busy(n))
                    && n@ == name,
            }
        }
        &&& after.slots() == if result is Ok {
            self.slots().insert(name, Slot::<R>::Closing(None))
        } else {
            self.slots()
        }
    }

    /// What the end of closing a scope leads to: where its stop was blocked, its owner is put back
    /// under its name; else the name is free.
    pub open spec fn closing_ends<C>(
        self,
        name: Seq<char>,
        owner: R,
        outcome: StopOutcome<C>,
        after: Self,
    ) -> bool {
        &&& after.parent == self.parent
        &&& after.shutting_down == self.shutting_down
        &&& self.nothing_new_runs(after)
        &&& after.slots() == if outcome is Blocked {
            self.slots().insert(name, Slot::Closing(Some(owner)))
        } else {
            self.slots().remove(name)
        }
    }

    /// Claims a name for a scope that is about to be made. Of several who want it, one gets it.
    pub fn claim<C>(&mut self, name: &str) -> (result: Result<(), RegistryError<C>>)
        requires
            old(self).wf(),
        ensures
            final(self).wf(),
            old(self).claims(name@, result, *final(self)),
    {
        if self.parent.is_none() {
            return Err(RegistryError::Unbound);
        }
        if self.shutting_down {
            return Err(RegistryError::ShuttingDown);
        }
        if self.find(name).is_some() {
            return Err(RegistryError::AlreadyExists(String::from_str(name)));
        }
        self.put(name, Slot::Reserved);
        Ok(())
    }

    /// Whether a name is claimed for a scope that is being made.
    pub open spec fn claimed(self, name: Seq<char>) -> bool {
        self.slots().contains_key(name) && self.slots()[name] is Reserved
    }

    /// Whether a name is claimed for a scope that is being made.
    pub fn is_claimed(&self, name: &str) -> (claimed: bool)
        requires
            self.wf(),
        ensures
            claimed == self.claimed(name@),
    {
        match self.find(name) {
            Some(i) => matches!(self.entries[i].slot, Slot::Reserved),
            None => false,
        }
    }

    /// Gives up a claim whose scope could not be made.
    pub fn unclaim(&mut self, name: &str)
        requires
            old(self).wf(),
        ensures
            final(self).wf(),
            final(self).parent == old(self).parent,
            final(self).shutting_down == old(self).shutting_down,
            final(self).slots() == old(self).slots().remove(name@),
            old(self).nothing_new_runs(*final(self)),
    {
        let _slot = self.take_out(name);
    }

    /// Publishes a scope that was made and started under a claim. A registry that is shutting down
    /// takes the claim away instead and hands the scope back.
    pub fn publish(&mut self, name: &str, owner: R) -> (rejected: Option<R>)
        requires
            old(self).wf(),
            old(self).shutting_down || old(self).claimed(name@),
        ensures
            final(self).wf(),
            final(self).parent == old(self).parent,
            final(self).shutting_down == old(self).shutting_down,
            rejected == if old(self).shutting_down {
                Some(owner)
            } else {
                None
            },
            final(self).slots() == if old(self).shutting_down {
                old(self).slots().remove(name@)
            } else {
                old(self).slots().insert(name@, Slot::Running(owner))
            },
            old(self).shutting_down ==> old(self).nothing_new_runs(*final(self)),
    {
        if self.shutting_down {
            let _slot = self.take_out(name);
            Some(owner)
        } else {
            self.put(name, Slot::Running(owner));
            None
        }
    }

    /// Puts an owner back under its name, to be closed again: its stop was blocked or interrupted.
    pub fn restore(&mut self, name: &str, owner: R)
        requires
            old(self).wf(),
        ensures
            final(self).wf(),
            final(self).parent == old(self).parent,
            final(self).shutting_down == old(self).shutting_down,
            final(self).slots() == old(self).slots().insert(name@, Slot::Closing(Some(owner))),
            old(self).nothing_new_runs(*final(self)),
    {
        self.put(name, Slot::Closing(Some(owner)));
    }

    /// Takes note of how the stop of a scope ended that could not be kept: where child scopes of
    /// its own block it, the owner stays under its name; else the name is free, and the owner is
    /// handed back, to be dropped.
    fn settle(&mut self, name: &str, owner: R, blocked: bool) -> (done: Option<R>)
        requires
            old(self).wf(),
        ensures
            final(self).wf(),
            final(self).parent == old(self).parent,
            final(self).shutting_down == old(self).shutting_down,
            final(self).slots() == if blocked {
                old(self).slots().insert(name@, Slot::Closing(Some(owner)))
            } else {
                old(self).slots().remove(name@)
            },
            done == if blocked {
                None
            } else {
                Some(owner)
            },
            old(self).nothing_new_runs(*final(self)),
    {
        if blocked {
            self.restore(name, owner);
            None
        } else {
            let _slot = self.take_out(name);
            Some(owner)
        }
    }

    /// Ends the opening of a scope that failed to start with `error` and was then stopped with
    /// `outcome`. Hands back the owner, unless its scope is blocked.
    pub fn start_failed<C>(
        &mut self,
        name: &str,
        owner: R,
        outcome: StopOutcome<C>,
        error: Error<C>,
    ) -> (ended: (RegistryError<C>, Option<R>))
        requires
            old(self).wf(),
        ensures
            final(self).wf(),
            final(self).parent == old(self).parent,
            final(self).shutting_down == old(self).shutting_down,
            ended.0 == RegistryError::Scope(error),
            ended.1 == if outcome is Blocked {
                None
            } else {
                Some(owner)
            },
            final(self).slots() == if outcome is Blocked {
                old(self).slots().insert(name@, Slot::Closing(Some(owner)))
            } else {
                old(self).slots().remove(name@)
            },
            old(self).nothing_new_runs(*final(self)),
    {
        let done = self.settle(name, owner, outcome.blockers().is_some());
        (RegistryError::Scope(error), done)
    }

    /// Ends the opening of a scope that a registry shutting down has handed back, and that was then
    /// stopped with `outcome`. What went wrong with the stop is not passed over. Hands back the
    /// owner, unless its scope is blocked.
    pub fn publish_rejected<C>(&mut self, name: &str, owner: R, outcome: StopOutcome<C>) -> (ended: (
        RegistryError<C>,
        Option<R>,
    ))
        requires
            old(self).wf(),
        ensures
            final(self).wf(),
            final(self).parent == old(self).parent,
            final(self).shutting_down == old(self).shutting_down,
            ended.0 == match outcome.as_result() {
                Ok(()) => RegistryError::ShuttingDown,
                Err(error) => RegistryError::Scope(error),
            },
            ended.1 == if outcome is Blocked {
                None
            } else {
                Some(owner)
            },
            final(self).slots() == if outcome is Blocked {
                old(self).slots().insert(name@, Slot::Closing(Some(owner)))
            } else {
                old(self).slots().remove(name@)
            },
            old(self).nothing_new_runs(*final(self)),
    {
        let done = self.settle(name, owner, outcome.blockers().is_some());
        let failure = match outcome.into_result() {
            Ok(()) => RegistryError::ShuttingDown,
            Err(error) => RegistryError::Scope(error),
        };
        (failure, done)
    }

    /// Takes the owner of a scope that is to be closed. The name stays claimed meanwhile.
    pub fn begin_close<C>(&mut self, name: &str) -> (result: Result<R, RegistryError<C>>)
        requires
            old(self).wf(),
        ensures
            final(self).wf(),
            old(self).closing_begins(name@, result, *final(self)),
    {
        match self.find(name) {
            None => Err(RegistryError::NotFound(String::from_str(name))),
            Some(i) => {
                let busy = matches!(self.entries[i].slot, Slot::Reserved | Slot::Closing(None));
                if busy {
                    return Err(RegistryError::Busy(String::from_str(name)));
                }
                match self.take_out(name) {
                    Some(Slot::Running(owner)) => {
                        self.put(name, Slot::Closing(None));
                        assert(self.slots() =~= old(self).slots().insert(
                            name@,
                            Slot::<R>::Closing(None),
                        ));
                        Ok(owner)
                    },
                    Some(Slot::Closing(Some(owner))) => {
                        self.put(name, Slot::Closing(None));
                        assert(self.slots() =~= old(self).slots().insert(
                            name@,
                            Slot::<R>::Closing(None),
                        ));
                        Ok(owner)
                    },
                    _ => Err(RegistryError::Busy(String::from_str(name))),
                }
            },
        }
    }

    /// Ends the closing of a scope whose stop ended with `outcome`. A scope that is blocked is not
    /// at its end: its owner stays under its name. Else the owner is handed back, to be dropped.
    pub fn end_close<C>(&mut self, name: &str, owner: R, outcome: StopOutcome<C>) -> (ended: (
        CloseReport<C>,
        Option<R>,
    ))
        requires
            old(self).wf(),
        ensures
            final(self).wf(),
            old(self).closing_ends(name@, owner, outcome, *final(self)),
            ended.0.outcome == outcome,
            ended.0.status == status_is(outcome),
            ended.1 == if outcome is Blocked {
                None
            } else {
                Some(owner)
            },
    {
        let report = CloseReport::derive(outcome);
        let done = self.settle(name, owner, report.status == CloseStatus::Blocked);
        (report, done)
    }

    /// Begins to shut down, for good, and lists the names that are to be closed.
    pub fn begin_close_all(&mut self) -> (names: Vec<String>)
        requires
            old(self).wf(),
        ensures
            final(self).wf(),
            *final(self) == (ScopeRegistry { shutting_down: true, ..*old(self) }),
            names@.len() == old(self).entries@.len(),
            forall|i: int|
                0 <= i < names@.len() ==> (#[trigger] names@[i])@ == old(self).entries@[i].name@,
    {
        self.shutting_down = true;
        self.names()
    }

    /// The owner of a scope that is running.
    pub fn get(&self, name: &str) -> (owner: Option<&R>)
        requires
            self.wf(),
        ensures
            owner == if self.slots().contains_key(name@) {
                match self.slots()[name@] {
                    Slot::Running(owner) => Some(&owner),
                    _ => None,
                }
            } else {
                None
            },
    {
        match self.find(name) {
            Some(i) => match &self.entries[i].slot {
                Slot::Running(owner) => Some(owner),
                _ => None,
            },
            None => None,
        }
    }

    /// The names that are registered, scopes that are being made or closed included.
    pub fn names(&self) -> (names: Vec<String>)
        ensures
            names@.len() == self.entries@.len(),
            forall|i: int|
                0 <= i < names@.len() ==> (#[trigger] names@[i])@ == self.entries@[i].name@,
    {
        let mut names: Vec<String> = Vec::new();
        let mut i: usize = 0;
        while i < self.entries.len()
            invariant
                i <= self.entries@.len(),
                names@.len() == i,
                forall|k: int|
                    0 <= k < i ==> (#[trigger] names@[k])@ == self.entries@[k].name@,
            decreases self.entries@.len() - i,
        {
            names.push(self.entries[i].name.clone());
            i = i + 1;
        }
        names
    }

    /// Whether the registry is shutting down.
    pub fn is_shutting_down(&self) -> (shutting: bool)
        ensures
            shutting == self.shutting_down,
    {
        self.shutting_down
    }
}

/// The listed names are exactly those that are registered.
pub proof fn names_are_the_registered_ones<P, R>(registry: ScopeRegistry<P, R>, name: Seq<char>)
    requires
        registry.wf(),
    ensures
        registry.slots().contains_key(name) <==> exists|i: int|
            0 <= i < registry.entries@.len() && (#[trigger] registry.entries@[i]).name@ == name,
{
    if registry.slots().contains_key(name) {
        let i = choose|i: int| #[trigger] named_at(registry.entries@, name, i);
        assert(named_at(registry.entries@, name, i));
        assert(registry.entries@[i].name@ == name);
    }
    if exists|i: int| 0 <= i < registry.entries@.len() && (#[trigger] registry.entries@[i]).name@ == name {
        let i = choose|i: int|
            0 <= i < registry.entries@.len() && (#[trigger] registry.entries@[i]).name@ == name;
        assert(named_at(registry.entries@, name, i));
    }
}

/// Of several who claim a free name exactly one gets it, the first, and each of the others is told
/// that it is taken; as long as scopes can be made, and nobody else takes the name or gives it up in
/// between.
pub proof fn of_several_claims_the_first_is_granted<P, R, C>(
    befores: Seq<ScopeRegistry<P, R>>,
    results: Seq<Result<(), RegistryError<C>>>,
    afters: Seq<ScopeRegistry<P, R>>,
    name: Seq<char>,
    k: int,
)
    requires
        befores.len() == results.len(),
        afters.len() == results.len(),
        0 <= k < results.len(),
        forall|i: int|
            0 <= i < results.len() ==> {
                &&& (#[trigger] befores[i]).claims(name, results[i], afters[i])
                &&& befores[i].parent is Some
                &&& !befores[i].shutting_down
            },
        !befores[0].slots().contains_key(name),
        forall|i: int, n: int|
            0 <= i && n == i + 1 && n < results.len() ==> (
            #[trigger] afters[i]).slots().contains_key(name) == (
            #[trigger] befores[n]).slots().contains_key(name),
    ensures
        afters[k].slots().contains_key(name),
        k == 0 ==> results[k] is Ok,
        k > 0 ==> (results[k] matches Err(RegistryError::AlreadyExists(n)) && n@ == name),
    decreases k,
{
    assert(befores[k].claims(name, results[k], afters[k]));
    if k > 0 {
        of_several_claims_the_first_is_granted(befores, results, afters, name, k - 1);
        assert(afters[k - 1].slots().contains_key(name) == befores[k].slots().contains_key(name));
    }
}

/// A scope whose stop was blocked keeps its name: nobody can claim it, and who closes it again gets
/// its owner.
pub proof fn a_blocked_scope_keeps_its_name<P, R, C>(
    before: ScopeRegistry<P, R>,
    name: Seq<char>,
    owner: R,
    outcome: StopOutcome<C>,
    after: ScopeRegistry<P, R>,
    claimed: Result<(), RegistryError<C>>,
    after_claim: ScopeRegistry<P, R>,
    closed: Result<R, RegistryError<C>>,
    after_close: ScopeRegistry<P, R>,
)
    requires
        outcome is Blocked,
        before.closing_ends(name, owner, outcome, after),
        after.claims(name, claimed, after_claim),
        after_claim.closing_begins(name, closed, after_close),
    ensures
        claimed is Err,
        after_claim == after,
        closed == Ok::<R, RegistryError<C>>(owner),
        after_close.slots().contains_key(name),
{
    assert(after.slots().contains_key(name));
}

/// Once a registry is shutting down and everything that it ran has been taken to be closed, nothing
/// runs in it any more, whatever happens and whatever openings were still under way.
pub proof fn nothing_runs_after_shutdown<P, R>(
    states: Seq<ScopeRegistry<P, R>>,
    a: int,
    b: int,
    name: Seq<char>,
)
    requires
        forall|i: int, k: int|
            0 <= i && k == i + 1 && k < states.len() ==> #[trigger] states[i].nothing_new_runs(
                states[k],
            ),
        0 <= a <= b < states.len(),
        forall|other: Seq<char>| #[trigger]
            states[a].slots().contains_key(other) ==> !(states[a].slots()[other] is Running),
    ensures
        states[b].slots().contains_key(name) ==> !(states[b].slots()[name] is Running),
    decreases b - a,
{
    if a < b {
        nothing_runs_after_shutdown(states, a, b - 1, name);
        assert(states[b - 1].nothing_new_runs(states[b]));
    } else {
        assert(states[a].slots().contains_key(name) ==> !(states[a].slots()[name] is Running));
    }
}

} // verus!
