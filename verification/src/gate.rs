//! The generic constraint gate.
//!
//! A circuit row is either a zero row or a generic row carrying the five
//! selectors `(q_L, q_R, q_O, q_M, q_C)`.  A generic row constrains the three
//! referenced witness cells `a = w[l]`, `b = w[r]`, `c = w[o]` by
//! `q_L*a + q_R*b + q_O*c + q_M*a*b + q_C == 0`.

use vstd::prelude::*;

verus! {

use crate::field::{Fe, fadd, fmul};

/// The five selector coefficients of a generic row.
#[derive(Clone, Copy, Debug, PartialEq, Eq, Structural)]
pub struct GenericSelectors {
    pub ql: Fe,
    pub qr: Fe,
    pub qo: Fe,
    pub qm: Fe,
    pub qc: Fe,
}

/// The kind of a circuit row, with the data that only that kind carries.
#[derive(Clone, Copy, Debug, PartialEq, Eq, Structural)]
pub enum GateType {
    Zero,
    Generic(GenericSelectors),
}

/// One row of the constraint trace.  The wire references are
/// `(row, column)` pairs; only the row part is read here.
#[derive(Clone, Copy, Debug)]
pub struct CircuitGate {
    pub typ: GateType,
    pub l: (usize, usize),
    pub r: (usize, usize),
    pub o: (usize, usize),
}

impl CircuitGate {
    /// Reduced selectors, trivially true of a zero row.
    pub open spec fn wf(self) -> bool {
        match self.typ {
            GateType::Zero => true,
            GateType::Generic(s) => s.ql.ok() && s.qr.ok() && s.qo.ok() && s.qm.ok()
                && s.qc.ok(),
        }
    }

    /// Whether the row is a generic row.
    pub open spec fn is_generic(self) -> bool {
        self.typ is Generic
    }

    /// The left selector as a value: zero on any row that is not generic.
    pub open spec fn ql_val(self) -> int {
        match self.typ {
            GateType::Generic(s) => s.ql.val(),
            _ => 0,
        }
    }

    /// The right selector as a value: zero on any row that is not generic.
    pub open spec fn qr_val(self) -> int {
        match self.typ {
            GateType::Generic(s) => s.qr.val(),
            _ => 0,
        }
    }

    /// The output selector as a value: zero on any row that is not generic.
    pub open spec fn qo_val(self) -> int {
        match self.typ {
            GateType::Generic(s) => s.qo.val(),
            _ => 0,
        }
    }

    /// The multiplication selector as a value: zero on any row that is not
    /// generic.
    pub open spec fn qm_val(self) -> int {
        match self.typ {
            GateType::Generic(s) => s.qm.val(),
            _ => 0,
        }
    }

    /// The constant selector as a value: zero on any row that is not generic.
    pub open spec fn qc_val(self) -> int {
        match self.typ {
            GateType::Generic(s) => s.qc.val(),
            _ => 0,
        }
    }

    /// A generic row from its wires and selector coefficients.
    pub fn create_generic(
        l: (usize, usize),
        r: (usize, usize),
        o: (usize, usize),
        ql: Fe,
        qr: Fe,
        qo: Fe,
        qm: Fe,
        qc: Fe,
    ) -> (g: CircuitGate)
        ensures
            g.is_generic(),
            g.l == l,
            g.r == r,
            g.o == o,
            g.ql_val() == ql.val(),
            g.qr_val() == qr.val(),
            g.qo_val() == qo.val(),
            g.qm_val() == qm.val(),
            g.qc_val() == qc.val(),
            ql.ok() && qr.ok() && qo.ok() && qm.ok() && qc.ok() ==> g.wf(),
    {
        CircuitGate {
            typ: GateType::Generic(GenericSelectors { ql, qr, qo, qm, qc }),
            l,
            r,
            o,
        }
    }

    /// A zero row: no constraint, every selector reads as zero.
    pub fn zero(l: (usize, usize), r: (usize, usize), o: (usize, usize)) -> (g: CircuitGate)
        ensures
            !g.is_generic(),
            g.wf(),
            g.l == l,
            g.r == r,
            g.o == o,
    {
        CircuitGate { typ: GateType::Zero, l, r, o }
    }

    /// The left selector; zero unless the row is generic.
    pub fn ql(&self) -> (q: Fe)
        requires
            self.wf(),
        ensures
            q.ok(),
            q.val() == self.ql_val(),
    {
        match self.typ {
            GateType::Generic(s) => s.ql,
            _ => Fe::zero(),
        }
    }

    /// The right selector; zero unless the row is generic.
    pub fn qr(&self) -> (q: Fe)
        requires
            self.wf(),
        ensures
            q.ok(),
            q.val() == self.qr_val(),
    {
        match self.typ {
            GateType::Generic(s) => s.qr,
            _ => Fe::zero(),
        }
    }

    /// The output selector; zero unless the row is generic.
    pub fn qo(&self) -> (q: Fe)
        requires
            self.wf(),
        ensures
            q.ok(),
            q.val() == self.qo_val(),
    {
        match self.typ {
            GateType::Generic(s) => s.qo,
            _ => Fe::zero(),
        }
    }

    /// The multiplication selector; zero unless the row is generic.
    pub fn qm(&self) -> (q: Fe)
        requires
            self.wf(),
        ensures
            q.ok(),
            q.val() == self.qm_val(),
    {
        match self.typ {
            GateType::Generic(s) => s.qm,
            _ => Fe::zero(),
        }
    }

    /// The constant selector; zero unless the row is generic.
    pub fn qc(&self) -> (q: Fe)
        requires
            self.wf(),
        ensures
            q.ok(),
            q.val() == self.qc_val(),
    {
        match self.typ {
            GateType::Generic(s) => s.qc,
            _ => Fe::zero(),
        }
    }

    /// The five-term constraint value of the row on a witness, as a
    /// mathematical value.
    pub open spec fn constraint_val(self, w: Seq<Fe>) -> int {
        fadd(
            fadd(
                fadd(
                    fadd(
                        fmul(self.ql_val(), w[self.l.0 as int].val()),
                        fmul(self.qr_val(), w[self.r.0 as int].val()),
                    ),
                    fmul(self.qo_val(), w[self.o.0 as int].val()),
                ),
                fmul(fmul(self.qm_val(), w[self.l.0 as int].val()), w[self.r.0 as int].val()),
            ),
            self.qc_val(),
        )
    }

    /// Whether a generic row is satisfied by the witness: true exactly when
    /// the row is generic and its five-term constraint vanishes.
    pub fn verify_generic(&self, witness: &Vec<Fe>) -> (ok: bool)
        requires
            self.wf(),
            self.l.0 < witness@.len(),
            self.r.0 < witness@.len(),
            self.o.0 < witness@.len(),
            forall|i: int| 0 <= i < witness@.len() ==> witness@[i].ok(),
        ensures
            ok == (self.is_generic() && self.constraint_val(witness@) == 0),
    {
        let wl = witness[self.l.0];
        let wr = witness[self.r.0];
        let wo = witness[self.o.0];
        let s = self.ql().mul(wl)
            .add(self.qr().mul(wr))
            .add(self.qo().mul(wo))
            .add(self.qm().mul(wl).mul(wr))
            .add(self.qc());
        match self.typ {
            GateType::Generic(_) => s.v == 0,
            _ => false,
        }
    }
}

} // verus!
