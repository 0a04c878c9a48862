//! Identities of scopes and tasks, and the report of scopes that block a stop.

use std::sync::Arc;

use vstd::prelude::*;

use crate::text::push_decimal;

verus! {

/// Identity of a scope. Equal ids name the same scope.
///
/// Distinct from [`TaskId`] in type, so that one cannot stand where the other is expected.
#[derive(Debug, Clone, Copy, PartialEq, Eq, PartialOrd, Ord, Hash, Structural)]
pub struct ScopeId(pub usize);

impl ScopeId {
    /// The scope id with the given number.
    pub fn new(raw: usize) -> (id: ScopeId)
        ensures
            id == ScopeId(raw),
    {
        ScopeId(raw)
    }

    /// The underlying number.
    pub fn get(self) -> (raw: usize)
        ensures
            raw == self.0,
    {
        self.0
    }

    /// How the id is shown: `scope#` and the number.
    pub open spec fn text(self) -> Seq<char> {
        "scope#"@ + crate::text::decimal_text(self.0 as nat)
    }

    /// Shows the id as [`ScopeId::text`] says.
    pub fn to_text(&self) -> (s: String)
        ensures
            s@ == self.text(),
    {
        let mut s = String::from_str("scope#");
        push_decimal(&mut s, self.0 as u64);
        s
    }
}

/// Hands out scope ids, one after the other.
pub struct ScopeIds {
    pub next: usize,
}

impl ScopeIds {
    /// A source whose first id is number 0.
    pub fn new() -> (ids: ScopeIds)
        ensures
            ids.next == 0,
    {
        ScopeIds { next: 0 }
    }

    /// The next id. The counter wraps around at the end of the number range.
    pub fn allocate(&mut self) -> (id: ScopeId)
        ensures
            id == ScopeId(old(self).next),
            final(self).next == if old(self).next == usize::MAX {
                0
            } else {
                old(self).next + 1
            },
    {
        let id = ScopeId(self.next);
        self.next = if self.next == usize::MAX {
            0
        } else {
            self.next + 1
        };
        id
    }
}

/// Identity of a background task, unique within its scope.
#[derive(Debug, Clone, Copy, PartialEq, Eq, PartialOrd, Ord, Hash, Structural)]
pub struct TaskId(pub u64);

impl TaskId {
    /// The task id with the given number.
    pub fn new(raw: u64) -> (id: TaskId)
        ensures
            id == TaskId(raw),
    {
        TaskId(raw)
    }

    /// The underlying number.
    pub fn get(self) -> (raw: u64)
        ensures
            raw == self.0,
    {
        self.0
    }

    /// How the id is shown: `task#` and the number.
    pub open spec fn text(self) -> Seq<char> {
        "task#"@ + crate::text::decimal_text(self.0 as nat)
    }

    /// Shows the id as [`TaskId::text`] says.
    pub fn to_text(&self) -> (s: String)
        ensures
            s@ == self.text(),
    {
        let mut s = String::from_str("task#");
        push_decimal(&mut s, self.0);
        s
    }
}

/// How a list of scope ids is shown, up to the `k`-th: the ids separated by commas, each as
/// `ScopeId(n)`.
pub open spec fn ids_text(ids: Seq<ScopeId>, k: nat) -> Seq<char>
    decreases k,
{
    if k == 0 {
        Seq::empty()
    } else {
        let before = ids_text(ids, (k - 1) as nat);
        let sep = if k == 1 {
            Seq::<char>::empty()
        } else {
            ", "@
        };
        before + sep + "ScopeId("@ + crate::text::decimal_text(ids[k - 1].0 as nat) + ")"@
    }
}

/// Appends the bracketed list of `ids` to `out`.
pub fn push_ids(out: &mut String, ids: &Vec<ScopeId>)
    ensures
        final(out)@ == old(out)@ + ("["@ + ids_text(ids@, ids@.len()) + "]"@),
{
    let ghost start = out@;
    out.append("[");
    let mut i: usize = 0;
    while i < ids.len()
        invariant
            i <= ids@.len(),
            out@ =~= start + "["@ + ids_text(ids@, i as nat),
        decreases ids@.len() - i,
    {
        if i > 0 {
            out.append(", ");
        }
        out.append("ScopeId(");
        push_decimal(out, ids[i].0 as u64);
        out.append(")");
        i = i + 1;
    }
    out.append("]");
    assert(out@ =~= start + ("["@ + ids_text(ids@, ids@.len()) + "]"@));
}

/// The child scopes that still hold a lease on their parent when it is asked to stop.
#[derive(Debug)]
pub struct Blockers {
    pub ids: Arc<Vec<ScopeId>>,
}

impl Clone for Blockers {
    fn clone(&self) -> (copy: Blockers)
        ensures
            copy == *self,
    {
        Blockers { ids: self.ids.clone() }
    }
}

impl Blockers {
    /// The report that lists `ids`.
    pub fn new(ids: Vec<ScopeId>) -> (b: Blockers)
        ensures
            b.ids@ == ids@,
    {
        Blockers { ids: Arc::new(ids) }
    }

    /// The ids of the blocking scopes.
    pub fn ids(&self) -> (ids: &[ScopeId])
        ensures
            ids@ == self.ids@,
    {
        self.ids.as_slice()
    }

    /// How many scopes block.
    pub fn len(&self) -> (n: usize)
        ensures
            n == self.ids@.len(),
    {
        self.ids.len()
    }

    /// Whether the list is empty.
    pub fn is_empty(&self) -> (empty: bool)
        ensures
            empty == (self.ids@.len() == 0),
    {
        self.ids.len() == 0
    }

    /// How the report is shown.
    pub open spec fn text(self) -> Seq<char> {
        "active scopes: "@ + crate::text::decimal_text(self.ids@.len()) + ", ids: "@ + ("["@
            + ids_text(self.ids@, self.ids@.len()) + "]"@)
    }

    /// Shows the report as [`Blockers::text`] says.
    pub fn describe(&self) -> (s: String)
        ensures
            s@ == self.text(),
    {
        let mut s = String::from_str("active scopes: ");
        push_decimal(&mut s, self.ids.len() as u64);
        s.append(", ids: ");
        push_ids(&mut s, &self.ids);
        s
    }
}

} // verus!
