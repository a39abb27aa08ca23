//! The prime scalar field.
//!
//! Elements are held reduced modulo `P`, a 31-bit prime with high 2-adicity,
//! so that multiplicative subgroups of any power-of-two order up to `2^27`
//! exist.  All arithmetic is specified against the mathematical operations
//! modulo `P` on `int`.

use vstd::prelude::*;

verus! {

use vstd::arithmetic::div_mod::{
    lemma_small_mod, lemma_mod_bound, lemma_fundamental_div_mod,
    lemma_fundamental_div_mod_converse, lemma_mul_mod_noop_general,
    lemma_add_mod_noop,
};

/// The field modulus: `2^31 - 2^27 + 1`, prime, with `2^27 | P - 1`.
pub const P: u64 = 2013265921;

/// The modulus as a mathematical integer.
pub open spec fn pmod() -> int {
    2013265921
}

/// Addition modulo `P`.
pub open spec fn fadd(a: int, b: int) -> int {
    (a + b) % pmod()
}

/// Subtraction modulo `P`.
pub open spec fn fsub(a: int, b: int) -> int {
    (a - b) % pmod()
}

/// Multiplication modulo `P`.
pub open spec fn fmul(a: int, b: int) -> int {
    (a * b) % pmod()
}

/// Negation modulo `P`.
pub open spec fn fneg(a: int) -> int {
    (0 - a) % pmod()
}

/// Exponentiation modulo `P`.
pub open spec fn fpow(a: int, e: nat) -> int
    decreases e,
{
    if e == 0 {
        1
    } else {
        fmul(a, fpow(a, (e - 1) as nat))
    }
}

/// An element of the field, kept reduced modulo `P`.
#[derive(Clone, Copy, Debug, PartialEq, Eq, Structural)]
pub struct Fe {
    pub v: u64,
}

impl Fe {
    /// The mathematical value of the element.
    pub open spec fn val(self) -> int {
        self.v as int
    }

    /// Reduced form: the representative lies below the modulus.
    pub open spec fn ok(self) -> bool {
        self.v < pmod()
    }

    /// The additive identity.
    pub fn zero() -> (r: Fe)
        ensures
            r.ok(),
            r.val() == 0,
    {
        Fe { v: 0 }
    }

    /// The multiplicative identity.
    pub fn one() -> (r: Fe)
        ensures
            r.ok(),
            r.val() == 1,
    {
        Fe { v: 1 }
    }

    /// An element from an arbitrary machine integer, reduced.
    pub fn new(v: u64) -> (r: Fe)
        ensures
            r.ok(),
            r.val() == v as int % pmod(),
    {
        Fe { v: v % P }
    }

    /// Sum in the field.
    pub fn add(self, other: Fe) -> (r: Fe)
        requires
            self.ok(),
            other.ok(),
        ensures
            r.ok(),
            r.val() == fadd(self.val(), other.val()),
    {
        let s: u64 = self.v + other.v;
        if s >= P {
            proof {
                lemma_fundamental_div_mod_converse(s as int, pmod(), 1, s as int - pmod());
            }
            Fe { v: s - P }
        } else {
            proof {
                lemma_small_mod(s as nat, P as nat);
            }
            Fe { v: s }
        }
    }

    /// Difference in the field.
    pub fn sub(self, other: Fe) -> (r: Fe)
        requires
            self.ok(),
            other.ok(),
        ensures
            r.ok(),
            r.val() == fsub(self.val(), other.val()),
    {
        if self.v >= other.v {
            proof {
                lemma_fundamental_div_mod_converse(
                    self.val() - other.val(), pmod(), 0, self.val() - other.val());
            }
            Fe { v: self.v - other.v }
        } else {
            proof {
                lemma_fundamental_div_mod_converse(
                    self.val() - other.val(), pmod(), -1,
                    self.val() + pmod() - other.val());
            }
            Fe { v: self.v + P - other.v }
        }
    }

    /// Product in the field.
    pub fn mul(self, other: Fe) -> (r: Fe)
        requires
            self.ok(),
            other.ok(),
        ensures
            r.ok(),
            r.val() == fmul(self.val(), other.val()),
    {
        proof {
            assert(self.val() * other.val() <= (P - 1) as int * (P - 1) as int)
                by (nonlinear_arith)
                requires 0 <= self.val() <= (P - 1) as int && 0 <= other.val() <= (P - 1) as int;
            assert(self.val() * other.val() >= 0) by (nonlinear_arith)
                requires self.val() >= 0 && other.val() >= 0;
        }
        let p: u64 = self.v * other.v;
        Fe { v: p % P }
    }

    /// Additive inverse.
    pub fn neg(self) -> (r: Fe)
        requires
            self.ok(),
        ensures
            r.ok(),
            r.val() == fneg(self.val()),
    {
        if self.v == 0 {
            proof {
                lemma_small_mod(0nat, P as nat);
            }
            Fe { v: 0 }
        } else {
            proof {
                lemma_fundamental_div_mod_converse(
                    0 - self.val(), pmod(), -1, pmod() - self.val());
            }
            Fe { v: P - self.v }
        }
    }

    /// The square of the element.
    pub fn square(self) -> (r: Fe)
        requires
            self.ok(),
        ensures
            r.ok(),
            r.val() == fmul(self.val(), self.val()),
    {
        self.mul(self)
    }

    /// Exponentiation by square and multiply.
    pub fn pow(self, e: u64) -> (r: Fe)
        requires
            self.ok(),
        ensures
            r.ok(),
            r.val() == fpow(self.val(), e as nat),
    {
        let mut base = self;
        let mut exp = e;
        let mut res = Fe { v: 1 };
        proof {
            lemma_small_mod(1nat, P as nat);
            lemma_fmul_one_left(fpow(self.val(), e as nat), pmod());
            lemma_fpow_range(self.val(), e as nat);
        }
        while exp > 0
            invariant
                base.ok(),
                res.ok(),
                fmul(res.val(), fpow(base.val(), exp as nat)) == fpow(self.val(), e as nat),
            decreases exp,
        {
            let ghost b0 = base.val();
            let ghost r0 = res.val();
            let ghost e0 = exp as nat;
            proof {
                lemma_fundamental_div_mod(exp as int, 2);
            }
            if exp % 2 == 1 {
                res = res.mul(base);
                proof {
                    let k = (e0 - 1) as nat / 2;
                    assert(e0 == 2 * k + 1);
                    // fpow(b, 2k+1) = b * fpow(b, 2k) = b * fpow(b*b, k)
                    lemma_fpow_square(b0, k);
                    assert(fpow(b0, e0) == fmul(b0, fpow(b0, (2 * k) as nat)));
                    lemma_fmul_assoc(r0, b0, fpow(fmul(b0, b0), k));
                }
            } else {
                proof {
                    let k = e0 / 2;
                    assert(e0 == 2 * k);
                    lemma_fpow_square(b0, k);
                }
            }
            base = base.mul(base);
            exp = exp / 2;
        }
        proof {
            lemma_fmul_one_right(res.val(), pmod());
            lemma_small_mod(res.v as nat, P as nat);
        }
        res
    }

    /// Multiplicative inverse, checked at run time: the Fermat candidate
    /// `self^(P-2)` is handed out only after its product with `self` is
    /// checked against one, so a returned inverse is exact without number
    /// theory the verifier cannot see.  The zero element has no inverse.
    pub fn inv(self) -> (r: Option<Fe>)
        requires
            self.ok(),
        ensures
            r matches Some(i) ==> i.ok() && fmul(self.val(), i.val()) == 1
                && i.val() == finv(self.val()),
            self.val() == 0 ==> r is None,
    {
        let c = self.pow(P - 2);
        let t = self.mul(c);
        if t.v == 1 {
            proof {
                lemma_finv_unique(self.val(), c.val());
            }
            Some(c)
        } else {
            None
        }
    }
}

/// The multiplicative inverse as a mathematical value: the unique reduced
/// solution of `a * b == 1 (mod P)` when one exists, zero otherwise.
pub open spec fn finv(a: int) -> int {
    if exists|b: int| 0 <= b < pmod() && fmul(a, b) == 1 {
        choose|b: int| 0 <= b < pmod() && fmul(a, b) == 1
    } else {
        0
    }
}

/// Division in the field, through `finv`.
pub open spec fn fdiv(a: int, b: int) -> int {
    fmul(a, finv(b))
}

/// Inverses are unique: any checked inverse is the one `finv` denotes.
pub proof fn lemma_finv_unique(a: int, b: int)
    requires
        0 <= b < pmod(),
        fmul(a, b) == 1,
    ensures
        finv(a) == b,
{
    let c = choose|c: int| 0 <= c < pmod() && fmul(a, c) == 1;
    assert(0 <= c < pmod() && fmul(a, c) == 1);
    lemma_small_mod(c as nat, P as nat);
    assert(fmul(c, 1) == c);
    lemma_fmul_assoc(c, a, b);
    assert(fmul(c, fmul(a, b)) == fmul(fmul(c, a), b));
    assert(fmul(c, a) == fmul(a, c));
    lemma_fmul_assoc(a, c, b);
    assert(fmul(fmul(a, c), b) == fmul(a, fmul(c, b)));
    lemma_small_mod(b as nat, P as nat);
    assert(1 * b == b);
    assert(fmul(1, b) == b);
    assert(c == b) by {
        assert(fmul(c, fmul(a, b)) == fmul(c, 1));
        assert(fmul(fmul(c, a), b) == fmul(fmul(a, c), b));
    }
}

/// The zero element has no inverse, so `finv` sends it to zero.
pub proof fn lemma_finv_zero()
    ensures
        finv(0) == 0,
{
    if exists|b: int| 0 <= b < pmod() && fmul(0, b) == 1 {
        let b = choose|b: int| 0 <= b < pmod() && fmul(0, b) == 1;
        assert(0 * b == 0);
        assert(fmul(0, b) == 0);
        assert(false);
    }
}

/// Inversion of a whole vector at the cost of a single inversion
/// (Montgomery's trick), with every entry checked afterwards.
///
/// On success every entry is exactly `finv` of the old one: zero entries
/// stay at zero, as partial inversion demands, and each nonzero entry
/// becomes the inverse its check confirmed.  The run-time checks, which
/// modular arithmetic alone cannot rule out failing, report through the
/// returned flag instead of weakening the entries' contract.
pub fn batch_inversion(v: &mut Vec<Fe>) -> (ok: bool)
    requires
        forall|i: int| 0 <= i < old(v)@.len() ==> old(v)@[i].ok(),
    ensures
        final(v)@.len() == old(v)@.len(),
        forall|i: int| 0 <= i < final(v)@.len() ==> final(v)@[i].ok(),
        ok ==> forall|i: int| 0 <= i < final(v)@.len()
            ==> #[trigger] final(v)@[i].val() == finv(old(v)@[i].val()),
        ok ==> forall|i: int| 0 <= i < final(v)@.len() && old(v)@[i].val() != 0
            ==> fmul(old(v)@[i].val(), #[trigger] final(v)@[i].val()) == 1,
{
    let n = v.len();
    // running products of the nonzero entries
    let mut prod: Vec<Fe> = Vec::new();
    let mut acc = Fe::one();
    let mut i: usize = 0;
    while i < n
        invariant
            i <= n,
            n == v@.len(),
            v@ == old(v)@,
            forall|j: int| 0 <= j < v@.len() ==> v@[j].ok(),
            acc.ok(),
            prod@.len() == i,
            forall|j: int| 0 <= j < i ==> prod@[j].ok(),
        decreases n - i,
    {
        if v[i].v != 0 {
            acc = acc.mul(v[i]);
        }
        prod.push(acc);
        i += 1;
    }
    // the one collective inversion
    let mut good = true;
    let mut tail_inv = match acc.inv() {
        Some(x) => x,
        None => {
            good = false;
            Fe::zero()
        },
    };
    let mut i: usize = n;
    while i > 0
        invariant
            i <= n,
            n == v@.len(),
            prod@.len() == n,
            tail_inv.ok(),
            forall|j: int| 0 <= j < n ==> prod@[j].ok(),
            forall|j: int| 0 <= j < i ==> v@[j] == old(v)@[j],
            forall|j: int| 0 <= j < v@.len() ==> old(v)@[j].ok(),
            forall|j: int| i <= j < n ==> v@[j].ok(),
            good ==> forall|j: int| i <= j < n
                ==> #[trigger] v@[j].val() == finv(old(v)@[j].val()),
            good ==> forall|j: int| i <= j < n && old(v)@[j].val() != 0
                ==> fmul(old(v)@[j].val(), #[trigger] v@[j].val()) == 1,
        decreases i,
    {
        i -= 1;
        if v[i].v != 0 {
            let pre = if i == 0 { Fe::one() } else { prod[i - 1] };
            let cand = tail_inv.mul(pre);
            let check = v[i].mul(cand);
            tail_inv = tail_inv.mul(v[i]);
            if check.v == 1 {
                proof {
                    lemma_finv_unique(old(v)@[i as int].val(), cand.val());
                }
                v.set(i, cand);
            } else {
                good = false;
                v.set(i, Fe::zero());
            }
        } else {
            proof {
                lemma_finv_zero();
            }
            v.set(i, Fe::zero());
        }
    }
    good
}

/// Every power of a field value stays reduced.
pub proof fn lemma_fpow_range(a: int, e: nat)
    ensures
        0 <= fpow(a, e) < pmod() || fpow(a, e) == 1,
    decreases e,
{
    if e == 0 {
    } else {
        lemma_mod_bound(a * fpow(a, (e - 1) as nat), pmod());
    }
}

/// Multiplying by one on the left is the identity on reduced values.
pub proof fn lemma_fmul_one_left(a: int, m: int)
    requires
        m == pmod(),
        0 <= a < m || a == 1,
    ensures
        fmul(1, a) == a,
{
    lemma_small_mod(a as nat, m as nat);
}

/// Multiplying by one on the right is the identity on reduced values.
pub proof fn lemma_fmul_one_right(a: int, m: int)
    requires
        m == pmod(),
        0 <= a < m,
    ensures
        fmul(a, 1) == a,
{
    lemma_small_mod(a as nat, m as nat);
}

/// Associativity of field multiplication.
pub proof fn lemma_fmul_assoc(a: int, b: int, c: int)
    ensures
        fmul(fmul(a, b), c) == fmul(a, fmul(b, c)),
{
    lemma_mul_mod_noop_general(a * b, c, pmod());
    lemma_mul_mod_noop_general(a, b * c, pmod());
    assert((a * b) * c == a * (b * c)) by (nonlinear_arith);
}

/// Squaring inside a power: `(a*a)^k == a^(2k)`.
pub proof fn lemma_fpow_square(a: int, k: nat)
    ensures
        fpow(fmul(a, a), k) == fpow(a, 2 * k),
    decreases k,
{
    if k == 0 {
    } else {
        lemma_fpow_square(a, (k - 1) as nat);
        let t = fpow(a, (2 * k - 2) as nat);
        // fpow(a, 2k) = a * (a * fpow(a, 2k-2))
        assert(fpow(a, (2 * k - 1) as nat) == fmul(a, t));
        assert(fpow(a, (2 * k) as nat) == fmul(a, fpow(a, (2 * k - 1) as nat)));
        assert(fpow(a, (2 * k) as nat) == fmul(a, fmul(a, t)));
        // fmul(a, fmul(a, t)) == fmul(fmul(a, a), t)
        lemma_fmul_assoc(a, a, t);
        // fpow(a*a, k) = fmul(a*a, fpow(a*a, k-1))
        // mul inside mod: fmul(fmul(a,a), t) uses reduced a*a
        lemma_mul_mod_noop_general(a * a, t, pmod());
    }
}

/// Field multiplication distributes over field addition.
pub proof fn lemma_fmul_fadd_dist(a: int, b: int, s: int)
    ensures
        fmul(fadd(a, b), s) == fadd(fmul(a, s), fmul(b, s)),
{
    lemma_mul_mod_noop_general(a + b, s, pmod());
    assert((a + b) * s == a * s + b * s) by (nonlinear_arith);
    lemma_fadd_noop(a * s, b * s);
    lemma_fadd_noop(a * s, (b * s) % pmod());
}

/// Commutativity of field addition.
pub proof fn lemma_fadd_comm(a: int, b: int)
    ensures
        fadd(a, b) == fadd(b, a),
{
}

/// The power taken one step further on the right.
pub proof fn lemma_fpow_succ(a: int, i: nat)
    ensures
        fpow(a, i + 1) == fmul(fpow(a, i), a),
    decreases i,
{
    if i == 0 {
        assert(1 * a == a);
        assert(a * 1 == a);
    } else {
        lemma_fpow_succ(a, (i - 1) as nat);
        lemma_fmul_assoc(a, fpow(a, (i - 1) as nat), a);
    }
}

/// Addition modulo composes with reduction of either argument.
pub proof fn lemma_fadd_noop(a: int, b: int)
    ensures
        fadd(a % pmod(), b) == fadd(a, b),
        fadd(a, b % pmod()) == fadd(a, b),
{
    lemma_add_mod_noop(a, b, pmod());
    lemma_add_mod_noop(a % pmod(), b, pmod());
    vstd::arithmetic::div_mod::lemma_mod_twice(a, pmod());
    lemma_add_mod_noop(a, b % pmod(), pmod());
    vstd::arithmetic::div_mod::lemma_mod_twice(b, pmod());
}

} // verus!
