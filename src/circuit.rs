//! Constraint systems: variables with roles and constraints over them.

use vstd::prelude::*;
use crate::field::{MODULUS, fadd, fmul};

verus! {

/// How a variable receives its value.
#[derive(Clone, Copy, Debug, PartialEq, Eq, Structural)]
pub enum Role {
    Private,
    Public,
    Internal,
}

/// The relation a constraint states between its three variables.
#[derive(Clone, Copy, Debug, PartialEq, Eq, Structural)]
pub enum ConstraintKind {
    /// `c == a + b`
    Add,
    /// `c == a * b`
    Mul,
}

/// A constraint `c == a op b` over variable indices.
#[derive(Clone, Copy, Debug, PartialEq, Eq, Structural)]
pub struct Constraint {
    pub kind: ConstraintKind,
    pub a: usize,
    pub b: usize,
    pub c: usize,
}

/// The errors of the engine.
#[derive(Clone, Copy, Debug, PartialEq, Eq, Structural)]
pub enum ZkError {
    /// A constraint refers to a variable that was never declared.
    StructureError,
    /// Some variable gets no value from the inputs and no defining constraint.
    MissingAssignmentError,
    /// The inputs violate a constraint.
    UnsatisfiableInputError,
    /// The number of input values differs from the number of input variables.
    InputLengthError,
    /// The witness handed to the prover does not satisfy the system.
    WitnessMismatchError,
    /// Bytes that are not the encoding of a proof.
    DecodingError,
}

/// Every variable that `c` mentions is below `n`.
pub open spec fn refs_in(c: Constraint, n: int) -> bool {
    c.a < n && c.b < n && c.c < n
}

/// `c` holds under the assignment `w`.
pub open spec fn holds(c: Constraint, w: Seq<int>) -> bool {
    match c.kind {
        ConstraintKind::Add => w[c.c as int] == fadd(w[c.a as int], w[c.b as int]),
        ConstraintKind::Mul => w[c.c as int] == fmul(w[c.a as int], w[c.b as int]),
    }
}

/// The number of variables among the first `n` that have role `role`.
pub open spec fn count_role(roles: Seq<Role>, n: int, role: Role) -> int
    decreases n,
{
    if n <= 0 {
        0
    } else {
        count_role(roles, n - 1, role) + if roles[n - 1] == role { 1int } else { 0int }
    }
}

pub proof fn lemma_count_role_mono(roles: Seq<Role>, i: int, n: int, role: Role)
    requires
        0 <= i <= n,
    ensures
        0 <= count_role(roles, i, role) <= count_role(roles, n, role),
    decreases n - i,
{
    if i < n {
        lemma_count_role_mono(roles, i, n - 1, role);
    } else {
        lemma_count_role_nonneg(roles, n, role);
    }
}

/// A variable's rank is below the number of variables of its role.
pub proof fn lemma_rank_bound(cs: &ConstraintSystem, v: int)
    requires
        0 <= v < cs.num_vars(),
    ensures
        0 <= cs.rank(v) < cs.count(cs.roles@[v]),
        count_role(cs.roles@, v + 1, cs.roles@[v]) == cs.rank(v) + 1,
{
    lemma_count_role_mono(cs.roles@, v + 1, cs.num_vars(), cs.roles@[v]);
    lemma_count_role_nonneg(cs.roles@, v, cs.roles@[v]);
    assert(count_role(cs.roles@, v + 1, cs.roles@[v]) == count_role(cs.roles@, v, cs.roles@[v]) + 1);
}

proof fn lemma_count_role_nonneg(roles: Seq<Role>, n: int, role: Role)
    ensures
        count_role(roles, n, role) >= 0,
    decreases n,
{
    if n > 0 {
        lemma_count_role_nonneg(roles, n - 1, role);
    }
}

/// Collects variables and constraints before a system is fixed.
pub struct ConstraintSystemBuilder {
    pub roles: Vec<Role>,
    pub constraints: Vec<Constraint>,
}

/// A finalized system: every constraint refers to declared variables.
pub struct ConstraintSystem {
    pub roles: Vec<Role>,
    pub constraints: Vec<Constraint>,
}

impl ConstraintSystem {
    pub open spec fn num_vars(&self) -> int {
        self.roles@.len() as int
    }

    pub open spec fn wf(&self) -> bool {
        forall|j: int|
            0 <= j < self.constraints@.len() ==> refs_in(#[trigger] self.constraints@[j], self.num_vars())
    }

    /// The number of variables with role `role`.
    pub open spec fn count(&self, role: Role) -> int {
        count_role(self.roles@, self.num_vars(), role)
    }

    /// The position of variable `v` among the variables of its role.
    pub open spec fn rank(&self, v: int) -> int {
        count_role(self.roles@, v, self.roles@[v])
    }

    /// `w` gives each variable a canonical value and satisfies every constraint.
    pub open spec fn satisfied_by(&self, w: Seq<int>) -> bool {
        &&& w.len() == self.num_vars()
        &&& forall|v: int| 0 <= v < w.len() ==> 0 <= #[trigger] w[v] < MODULUS
        &&& forall|j: int| 0 <= j < self.constraints@.len() ==> holds(#[trigger] self.constraints@[j], w)
    }

    /// `w` gives the private and public variables the input values, in declaration order.
    pub open spec fn agrees(&self, w: Seq<int>, private_input: Seq<int>, public_input: Seq<int>) -> bool {
        forall|v: int|
            0 <= v < self.num_vars() ==> {
                &&& self.roles@[v] == Role::Private ==> #[trigger] w[v] == private_input[self.rank(v)]
                &&& self.roles@[v] == Role::Public ==> w[v] == public_input[self.rank(v)]
            }
    }

    /// `w` is a witness of the system for these inputs.
    pub open spec fn admits(&self, w: Seq<int>, private_input: Seq<int>, public_input: Seq<int>) -> bool {
        self.satisfied_by(w) && self.agrees(w, private_input, public_input)
    }

    /// Counts the variables of a role.
    pub fn count_of(&self, role: Role) -> (r: usize)
        ensures
            r as int == self.count(role),
    {
        let mut r: usize = 0;
        let mut v: usize = 0;
        while v < self.roles.len()
            invariant
                v <= self.roles@.len(),
                r as int == count_role(self.roles@, v as int, role),
                r <= v,
            decreases self.roles@.len() - v,
        {
            if self.roles[v] == role {
                r = r + 1;
            }
            v = v + 1;
        }
        r
    }
}

impl ConstraintSystemBuilder {
    pub fn new() -> (r: ConstraintSystemBuilder)
        ensures
            r.roles@.len() == 0,
            r.constraints@.len() == 0,
    {
        ConstraintSystemBuilder { roles: Vec::new(), constraints: Vec::new() }
    }

    /// Declares a variable and returns its index.
    pub fn declare_variable(&mut self, role: Role) -> (id: usize)
        requires
            old(self).roles@.len() < usize::MAX,
        ensures
            id == old(self).roles@.len(),
            final(self).roles@ == old(self).roles@.push(role),
            final(self).constraints@ == old(self).constraints@,
    {
        let id = self.roles.len();
        self.roles.push(role);
        id
    }

    /// Adds the constraint `c == a op b` and returns its index.
    pub fn add_constraint(&mut self, kind: ConstraintKind, a: usize, b: usize, c: usize) -> (id: usize)
        requires
            old(self).constraints@.len() < usize::MAX,
        ensures
            id == old(self).constraints@.len(),
            final(self).constraints@ == old(self).constraints@.push(Constraint { kind, a, b, c }),
            final(self).roles@ == old(self).roles@,
    {
        let id = self.constraints.len();
        self.constraints.push(Constraint { kind, a, b, c });
        id
    }

    /// Fixes the system, refusing one whose constraints mention undeclared variables.
    pub fn finalize(self) -> (r: Result<ConstraintSystem, ZkError>)
        ensures
            match r {
                Ok(cs) => cs.roles@ == self.roles@ && cs.constraints@ == self.constraints@ && cs.wf(),
                Err(e) => e == ZkError::StructureError && exists|j: int|
                    0 <= j < self.constraints@.len()
                        && !refs_in(#[trigger] self.constraints@[j], self.roles@.len() as int),
            },
            r is Ok <==> forall|j: int|
                0 <= j < self.constraints@.len() ==> refs_in(#[trigger] self.constraints@[j], self.roles@.len() as int),
    {
        let n = self.roles.len();
        let mut j: usize = 0;
        while j < self.constraints.len()
            invariant
                n == self.roles@.len(),
                j <= self.constraints@.len(),
                forall|k: int| 0 <= k < j ==> refs_in(#[trigger] self.constraints@[k], n as int),
            decreases self.constraints@.len() - j,
        {
            let c = self.constraints[j];
            if c.a >= n || c.b >= n || c.c >= n {
                return Err(ZkError::StructureError);
            }
            j = j + 1;
        }
        Ok(ConstraintSystem { roles: self.roles, constraints: self.constraints })
    }
}

} // verus!
