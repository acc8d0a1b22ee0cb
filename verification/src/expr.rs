//! Symbolic bitvector expressions.
//!
//! An [`Expr`] is a tree over constants of at most 64 bits, named
//! unconstrained symbols and bytes of never-written memory. Every
//! constructor folds constants, so an expression is symbolically constant
//! exactly when its root is [`Expr::Const`].

use vstd::prelude::*;

verus! {

/// Bitwise and arithmetic operators on two operands of one width.
#[derive(Debug, Clone, Copy, PartialEq, Eq, Structural)]
pub enum BinOp {
    And,
    Or,
    Xor,
    Add,
    Sub,
    /// Shift left; zeros come in.
    Shl,
    /// Shift right; zeros come in.
    Lshr,
    /// Shift right; the top bit comes in.
    Ashr,
}

/// A bitvector expression of a fixed width.
#[derive(Debug, PartialEq, Eq)]
pub enum Expr {
    /// The constant `value`, below two to the power `width`.
    Const { value: u64, width: u32 },
    /// An unconstrained value known by its name.
    Symbol { name: String, width: u32 },
    /// The byte that memory held at `address` before anything was written.
    Initial { address: Box<Expr> },
    /// Bitwise complement.
    Not { arg: Box<Expr> },
    /// A binary operator applied to two expressions of one width.
    Binary { op: BinOp, lhs: Box<Expr>, rhs: Box<Expr> },
    /// One bit: 1 where both sides have the same value.
    Equal { lhs: Box<Expr>, rhs: Box<Expr> },
    /// `then` where the one-bit `cond` is 1, `otherwise` where it is 0.
    Ite { cond: Box<Expr>, then: Box<Expr>, otherwise: Box<Expr> },
    /// `high` placed above `low`.
    Concat { high: Box<Expr>, low: Box<Expr> },
    /// Bits `lo..=hi` of `arg`.
    Slice { arg: Box<Expr>, lo: u32, hi: u32 },
    /// `arg` widened to `width` bits with zeros.
    ZeroExt { arg: Box<Expr>, width: u32 },
}

/// The largest value of `width` bits: all ones in the low `width` bits.
pub open spec fn mask(width: u32) -> u64 {
    if width >= 64 {
        u64::MAX
    } else {
        ((1u64 << (width as u64)) - 1) as u64
    }
}

/// Two to the power `width`, for widths up to 64.
pub open spec fn modulus(width: u32) -> int {
    mask(width) as int + 1
}

/// What a binary operator yields on two constants of `width` bits.
pub open spec fn bin_apply(op: BinOp, a: u64, b: u64, width: u32) -> u64 {
    match op {
        BinOp::And => a & b,
        BinOp::Or => a | b,
        BinOp::Xor => a ^ b,
        BinOp::Add => ((a as int + b as int) % modulus(width)) as u64,
        BinOp::Sub => ((a as int - b as int) % modulus(width)) as u64,
        BinOp::Shl => if b >= width {
            0
        } else {
            (a << b) & mask(width)
        },
        BinOp::Lshr => if b >= width {
            0
        } else {
            a >> b
        },
        BinOp::Ashr => if !top_bit(a, width) {
            if b >= width {
                0
            } else {
                a >> b
            }
        } else {
            if b >= width {
                mask(width)
            } else {
                (a >> b) | (mask(width) & !(mask(width) >> b))
            }
        },
    }
}

/// Whether the highest of the `width` bits of `a` is set.
pub open spec fn top_bit(a: u64, width: u32) -> bool {
    (a >> ((width - 1) as u64)) & 1 == 1
}

pub proof fn lemma_mask_shape(width: u32)
    requires
        width < 64,
    ensures
        (1u64 << (width as u64)) >= 1,
        mask(width) == (1u64 << (width as u64)) - 1,
        mask(width) <= 0x7fff_ffff_ffff_ffff,
{
    let w: u64 = width as u64;
    assert(w < 64 ==> (1u64 << w) >= 1 && (1u64 << w) - 1 <= 0x7fff_ffff_ffff_ffff)
        by (bit_vector);
}

/// The largest value of `width` bits.
pub fn mask_of(width: u32) -> (r: u64)
    ensures
        r == mask(width),
{
    if width >= 64 {
        u64::MAX
    } else {
        proof {
            lemma_mask_shape(width);
        }
        (1u64 << width) - 1
    }
}

/// Cutting a value that fits `width` bits to `width` bits changes nothing.
pub proof fn lemma_truncate_small(value: u64, width: u32)
    requires
        value <= mask(width),
    ensures
        value & mask(width) == value,
{
    if width >= 64 {
        assert(value & u64::MAX == value) by (bit_vector);
    } else {
        let w: u64 = width as u64;
        assert(w < 64 && (1u64 << w) >= 1 && value <= (1u64 << w) - 1 ==> value & (((1u64 << w)
            - 1) as u64) == value) by (bit_vector);
        lemma_mask_shape(width);
    }
}

/// Masks grow with the width.
pub proof fn lemma_mask_monotone(narrow: u32, wide: u32)
    requires
        narrow <= wide,
    ensures
        mask(narrow) <= mask(wide),
{
    if wide < 64 {
        let a: u64 = narrow as u64;
        let b: u64 = wide as u64;
        assert(a <= b && b < 64 ==> (1u64 << a) - 1 <= (1u64 << b) - 1 && (1u64 << a) >= 1 && (1u64
            << b) >= 1) by (bit_vector);
    }
}

/// A value that lies in one window of length `m` has the remainder that its
/// offset in the window gives.
pub proof fn lemma_mod_window(x: int, m: int, q: int)
    requires
        m > 0,
        q * m <= x < q * m + m,
    ensures
        x % m == x - q * m,
{
    vstd::arithmetic::div_mod::lemma_fundamental_div_mod_converse(x, m, q, x - q * m);
}

/// What a binary operator yields on two constants of `width` bits fits in
/// `width` bits.
pub proof fn lemma_bin_apply_fits(op: BinOp, a: u64, b: u64, width: u32)
    requires
        1 <= width <= 64,
        a <= mask(width),
        b <= mask(width),
    ensures
        bin_apply(op, a, b, width) <= mask(width),
{
    let m: u64 = mask(width);
    match op {
        BinOp::And => {
            assert(a & b <= a) by (bit_vector);
        },
        BinOp::Or => {
            if width < 64 {
                let w: u64 = width as u64;
                assert(w < 64 && a <= (1u64 << w) - 1 && b <= (1u64 << w) - 1 && (1u64 << w) >= 1
                    ==> (a | b) <= (1u64 << w) - 1) by (bit_vector);
                lemma_mask_shape(width);
            }
        },
        BinOp::Xor => {
            if width < 64 {
                let w: u64 = width as u64;
                assert(w < 64 && a <= (1u64 << w) - 1 && b <= (1u64 << w) - 1 && (1u64 << w) >= 1
                    ==> (a ^ b) <= (1u64 << w) - 1) by (bit_vector);
                lemma_mask_shape(width);
            }
        },
        BinOp::Add => {
            vstd::arithmetic::div_mod::lemma_mod_bound(a as int + b as int, modulus(width));
        },
        BinOp::Sub => {
            vstd::arithmetic::div_mod::lemma_mod_bound(a as int - b as int, modulus(width));
        },
        BinOp::Shl => {
            assert((a << b) & m <= m) by (bit_vector);
        },
        BinOp::Lshr => {
            assert(a >> b <= a) by (bit_vector);
        },
        BinOp::Ashr => {
            assert(a >> b <= a) by (bit_vector);
            let fill: u64 = m & !(m >> b);
            assert(m & !(m >> b) <= m) by (bit_vector);
            if width < 64 {
                let w: u64 = width as u64;
                let x: u64 = a >> b;
                assert(w < 64 && x <= (1u64 << w) - 1 && fill <= (1u64 << w) - 1 && (1u64 << w)
                    >= 1 ==> (x | fill) <= (1u64 << w) - 1) by (bit_vector);
                lemma_mask_shape(width);
            }
        },
    }
}

/// The value of `op` on two constants of `width` bits.
pub fn bin_fold(op: BinOp, a: u64, b: u64, width: u32) -> (r: u64)
    requires
        1 <= width <= 64,
        a <= mask(width),
        b <= mask(width),
    ensures
        r == bin_apply(op, a, b, width),
        r <= mask(width),
{
    proof {
        lemma_bin_apply_fits(op, a, b, width);
    }
    let m: u64 = mask_of(width);
    match op {
        BinOp::And => a & b,
        BinOp::Or => a | b,
        BinOp::Xor => a ^ b,
        BinOp::Add => {
            if width >= 64 {
                let r: u64 = a.wrapping_add(b);
                proof {
                    if a + b > u64::MAX {
                        lemma_mod_window(a as int + b as int, modulus(width), 1);
                    } else {
                        lemma_mod_window(a as int + b as int, modulus(width), 0);
                    }
                }
                r
            } else {
                proof {
                    lemma_mask_shape(width);
                }
                let s: u64 = a + b;
                if s > m {
                    proof {
                        lemma_mod_window(a as int + b as int, modulus(width), 1);
                    }
                    s - m - 1
                } else {
                    proof {
                        lemma_mod_window(a as int + b as int, modulus(width), 0);
                    }
                    s
                }
            }
        },
        BinOp::Sub => {
            if a >= b {
                proof {
                    lemma_mod_window(a as int - b as int, modulus(width), 0);
                }
                a - b
            } else {
                proof {
                    lemma_mod_window(a as int - b as int, modulus(width), -1);
                }
                m - b + a + 1
            }
        },
        BinOp::Shl => {
            if b >= width as u64 {
                0
            } else {
                (a << b) & m
            }
        },
        BinOp::Lshr => {
            if b >= width as u64 {
                0
            } else {
                a >> b
            }
        },
        BinOp::Ashr => {
            let negative: bool = (a >> (width - 1)) & 1 == 1;
            if !negative {
                if b >= width as u64 {
                    0
                } else {
                    a >> b
                }
            } else {
                if b >= width as u64 {
                    m
                } else {
                    (a >> b) | (m & !(m >> b))
                }
            }
        },
    }
}

impl Expr {
    /// Number of bits of the expression.
    pub open spec fn width(self) -> nat
        decreases self,
    {
        match self {
            Expr::Const { value, width } => width as nat,
            Expr::Symbol { name, width } => width as nat,
            Expr::Initial { address } => 8,
            Expr::Not { arg } => arg.width(),
            Expr::Binary { op, lhs, rhs } => lhs.width(),
            Expr::Equal { lhs, rhs } => 1,
            Expr::Ite { cond, then, otherwise } => then.width(),
            Expr::Concat { high, low } => high.width() + low.width(),
            Expr::Slice { arg, lo, hi } => (hi - lo + 1) as nat,
            Expr::ZeroExt { arg, width } => width as nat,
        }
    }

    /// The widths inside the expression agree: constants fit their width,
    /// operands of one operator are equally wide, slices stay inside their
    /// argument, and no width exceeds what a `u32` holds.
    pub open spec fn wf(self) -> bool
        decreases self,
    {
        match self {
            Expr::Const { value, width } => 1 <= width <= 64 && value <= mask(width),
            Expr::Symbol { name, width } => 1 <= width,
            Expr::Initial { address } => address.wf(),
            Expr::Not { arg } => arg.wf(),
            Expr::Binary { op, lhs, rhs } => lhs.wf() && rhs.wf() && lhs.width() == rhs.width(),
            Expr::Equal { lhs, rhs } => lhs.wf() && rhs.wf() && lhs.width() == rhs.width(),
            Expr::Ite { cond, then, otherwise } => cond.wf() && then.wf() && otherwise.wf()
                && cond.width() == 1 && then.width() == otherwise.width(),
            Expr::Concat { high, low } => high.wf() && low.wf() && high.width() + low.width()
                <= u32::MAX,
            Expr::Slice { arg, lo, hi } => arg.wf() && lo <= hi && hi < arg.width(),
            Expr::ZeroExt { arg, width } => arg.wf() && arg.width() <= width,
        }
    }

    /// Structural equality, with names compared by their characters.
    pub open spec fn eqv(self, other: Expr) -> bool
        decreases self,
    {
        match (self, other) {
            (Expr::Const { value: v1, width: w1 }, Expr::Const { value: v2, width: w2 }) => v1
                == v2 && w1 == w2,
            (Expr::Symbol { name: n1, width: w1 }, Expr::Symbol { name: n2, width: w2 }) => n1@
                == n2@ && w1 == w2,
            (Expr::Initial { address: a1 }, Expr::Initial { address: a2 }) => a1.eqv(*a2),
            (Expr::Not { arg: a1 }, Expr::Not { arg: a2 }) => a1.eqv(*a2),
            (
                Expr::Binary { op: o1, lhs: l1, rhs: r1 },
                Expr::Binary { op: o2, lhs: l2, rhs: r2 },
            ) => o1 == o2 && l1.eqv(*l2) && r1.eqv(*r2),
            (Expr::Equal { lhs: l1, rhs: r1 }, Expr::Equal { lhs: l2, rhs: r2 }) => l1.eqv(*l2)
                && r1.eqv(*r2),
            (
                Expr::Ite { cond: c1, then: t1, otherwise: e1 },
                Expr::Ite { cond: c2, then: t2, otherwise: e2 },
            ) => c1.eqv(*c2) && t1.eqv(*t2) && e1.eqv(*e2),
            (Expr::Concat { high: h1, low: l1 }, Expr::Concat { high: h2, low: l2 }) => h1.eqv(
                *h2,
            ) && l1.eqv(*l2),
            (
                Expr::Slice { arg: a1, lo: l1, hi: h1 },
                Expr::Slice { arg: a2, lo: l2, hi: h2 },
            ) => a1.eqv(*a2) && l1 == l2 && h1 == h2,
            (Expr::ZeroExt { arg: a1, width: w1 }, Expr::ZeroExt { arg: a2, width: w2 }) => a1.eqv(
                *a2,
            ) && w1 == w2,
            _ => false,
        }
    }

    /// Every expression is structurally equal to itself.
    pub proof fn lemma_eqv_reflexive(self)
        ensures
            self.eqv(self),
        decreases self,
    {
        match self {
            Expr::Const { value, width } => {},
            Expr::Symbol { name, width } => {},
            Expr::Initial { address } => {
                address.lemma_eqv_reflexive();
            },
            Expr::Not { arg } => {
                arg.lemma_eqv_reflexive();
            },
            Expr::Binary { op, lhs, rhs } => {
                lhs.lemma_eqv_reflexive();
                rhs.lemma_eqv_reflexive();
            },
            Expr::Equal { lhs, rhs } => {
                lhs.lemma_eqv_reflexive();
                rhs.lemma_eqv_reflexive();
            },
            Expr::Ite { cond, then, otherwise } => {
                cond.lemma_eqv_reflexive();
                then.lemma_eqv_reflexive();
                otherwise.lemma_eqv_reflexive();
            },
            Expr::Concat { high, low } => {
                high.lemma_eqv_reflexive();
                low.lemma_eqv_reflexive();
            },
            Expr::Slice { arg, lo, hi } => {
                arg.lemma_eqv_reflexive();
            },
            Expr::ZeroExt { arg, width } => {
                arg.lemma_eqv_reflexive();
            },
        }
    }

    /// A well-formed expression has at least one bit and a width that a
    /// `u32` holds.
    pub proof fn lemma_width_bounds(self)
        requires
            self.wf(),
        ensures
            1 <= self.width() <= u32::MAX,
        decreases self,
    {
        match self {
            Expr::Const { value, width } => {},
            Expr::Symbol { name, width } => {},
            Expr::Initial { address } => {},
            Expr::Not { arg } => {
                arg.lemma_width_bounds();
            },
            Expr::Binary { op, lhs, rhs } => {
                lhs.lemma_width_bounds();
            },
            Expr::Equal { lhs, rhs } => {},
            Expr::Ite { cond, then, otherwise } => {
                then.lemma_width_bounds();
            },
            Expr::Concat { high, low } => {
                high.lemma_width_bounds();
                low.lemma_width_bounds();
            },
            Expr::Slice { arg, lo, hi } => {
                arg.lemma_width_bounds();
            },
            Expr::ZeroExt { arg, width } => {
                arg.lemma_width_bounds();
            },
        }
    }

    /// Whether the two expressions are structurally equal.
    pub fn same(&self, other: &Expr) -> (r: bool)
        ensures
            r == self.eqv(*other),
        decreases *self,
    {
        match (self, other) {
            (Expr::Const { value: v1, width: w1 }, Expr::Const { value: v2, width: w2 }) => *v1
                == *v2 && *w1 == *w2,
            (Expr::Symbol { name: n1, width: w1 }, Expr::Symbol { name: n2, width: w2 }) => *n1
                == *n2 && *w1 == *w2,
            (Expr::Initial { address: a1 }, Expr::Initial { address: a2 }) => a1.same(a2),
            (Expr::Not { arg: a1 }, Expr::Not { arg: a2 }) => a1.same(a2),
            (
                Expr::Binary { op: o1, lhs: l1, rhs: r1 },
                Expr::Binary { op: o2, lhs: l2, rhs: r2 },
            ) => *o1 == *o2 && l1.same(l2) && r1.same(r2),
            (Expr::Equal { lhs: l1, rhs: r1 }, Expr::Equal { lhs: l2, rhs: r2 }) => l1.same(l2)
                && r1.same(r2),
            (
                Expr::Ite { cond: c1, then: t1, otherwise: e1 },
                Expr::Ite { cond: c2, then: t2, otherwise: e2 },
            ) => c1.same(c2) && t1.same(t2) && e1.same(e2),
            (Expr::Concat { high: h1, low: l1 }, Expr::Concat { high: h2, low: l2 }) => h1.same(h2)
                && l1.same(l2),
            (
                Expr::Slice { arg: a1, lo: l1, hi: h1 },
                Expr::Slice { arg: a2, lo: l2, hi: h2 },
            ) => a1.same(a2) && *l1 == *l2 && *h1 == *h2,
            (Expr::ZeroExt { arg: a1, width: w1 }, Expr::ZeroExt { arg: a2, width: w2 }) => a1.same(
                a2,
            ) && *w1 == *w2,
            _ => false,
        }
    }

    /// The constant of `width` bits that holds the low `width` bits of
    /// `value`.
    pub open spec fn spec_from_u64(value: u64, width: u32) -> Expr {
        Expr::Const { value: value & mask(width), width }
    }

    /// The constant of `width` bits that holds the low `width` bits of
    /// `value`.
    pub fn from_u64(value: u64, width: u32) -> (r: Expr)
        requires
            1 <= width <= 64,
        ensures
            r == Expr::spec_from_u64(value, width),
            r.wf(),
            value <= mask(width) ==> r == (Expr::Const { value, width }),
    {
        let m: u64 = mask_of(width);
        assert(value & m <= m) by (bit_vector);
        proof {
            if value <= m {
                lemma_truncate_small(value, width);
            }
        }
        Expr::Const { value: value & m, width }
    }

    /// The one-bit constant 1 for `true`, 0 for `false`.
    pub open spec fn spec_from_bool(value: bool) -> Expr {
        Expr::Const { value: if value { 1 } else { 0 }, width: 1 }
    }

    /// The one-bit constant 1 for `true`, 0 for `false`.
    pub fn from_bool(value: bool) -> (r: Expr)
        ensures
            r == Expr::spec_from_bool(value),
            r.wf(),
    {
        proof {
            lemma_mask_shape(1);
            assert((1u64 << 1u64) == 2) by (bit_vector);
        }
        Expr::Const { value: if value { 1 } else { 0 }, width: 1 }
    }

    /// A fresh unconstrained value of `width` bits known as `name`.
    pub fn unconstrained(width: u32, name: &str) -> (r: Expr)
        requires
            1 <= width,
        ensures
            r matches Expr::Symbol { name: n, width: w } && n@ == name@ && w == width,
            r.wf(),
    {
        Expr::Symbol { name: name.to_owned(), width }
    }

    /// The value of the expression where it is a constant.
    pub open spec fn spec_get_constant(&self) -> Option<u64> {
        match *self {
            Expr::Const { value, width } => Some(value),
            _ => None,
        }
    }

    /// The value of the expression where it is a constant.
    #[verifier::when_used_as_spec(spec_get_constant)]
    pub fn get_constant(&self) -> (r: Option<u64>)
        ensures
            r == self.spec_get_constant(),
    {
        match self {
            Expr::Const { value, width } => Some(*value),
            _ => None,
        }
    }

    /// Number of bits of the expression.
    pub fn len(&self) -> (r: u32)
        requires
            self.wf(),
        ensures
            r == self.width(),
            r >= 1,
        decreases *self,
    {
        match self {
            Expr::Const { value, width } => *width,
            Expr::Symbol { name, width } => *width,
            Expr::Initial { address } => 8,
            Expr::Not { arg } => arg.len(),
            Expr::Binary { op, lhs, rhs } => lhs.len(),
            Expr::Equal { lhs, rhs } => 1,
            Expr::Ite { cond, then, otherwise } => then.len(),
            Expr::Concat { high, low } => high.len() + low.len(),
            Expr::Slice { arg, lo, hi } => {
                proof {
                    arg.lemma_width_bounds();
                }
                *hi - *lo + 1
            },
            Expr::ZeroExt { arg, width } => {
                proof {
                    arg.lemma_width_bounds();
                }
                *width
            },
        }
    }
}

impl Expr {
    /// Bitwise complement; a constant is complemented at once.
    pub open spec fn spec_not(self) -> Expr {
        match self {
            Expr::Const { value, width } => Expr::Const {
                value: (mask(width) - value) as u64,
                width,
            },
            _ => Expr::Not { arg: Box::new(self) },
        }
    }

    /// Bitwise complement; a constant is complemented at once.
    pub fn not(&self) -> (r: Expr)
        requires
            self.wf(),
        ensures
            r == self.spec_not(),
            r.wf(),
            r.width() == self.width(),
    {
        match self {
            Expr::Const { value, width } => {
                let m: u64 = mask_of(*width);
                Expr::Const { value: m - *value, width: *width }
            },
            _ => Expr::Not { arg: Box::new(self.clone()) },
        }
    }

    /// `op` applied to two expressions; two constants are folded.
    pub open spec fn spec_binary(op: BinOp, lhs: Expr, rhs: Expr) -> Expr {
        match (lhs, rhs) {
            (Expr::Const { value: a, width }, Expr::Const { value: b, width: _ }) => Expr::Const {
                value: bin_apply(op, a, b, width),
                width,
            },
            _ => Expr::Binary { op, lhs: Box::new(lhs), rhs: Box::new(rhs) },
        }
    }

    /// `op` applied to two expressions; two constants are folded.
    pub fn binary(op: BinOp, lhs: &Expr, rhs: &Expr) -> (r: Expr)
        requires
            lhs.wf(),
            rhs.wf(),
            lhs.width() == rhs.width(),
        ensures
            r == Expr::spec_binary(op, *lhs, *rhs),
            r.wf(),
            r.width() == lhs.width(),
    {
        match (lhs, rhs) {
            (Expr::Const { value: a, width }, Expr::Const { value: b, width: _ }) => Expr::Const {
                value: bin_fold(op, *a, *b, *width),
                width: *width,
            },
            _ => Expr::Binary { op, lhs: Box::new(lhs.clone()), rhs: Box::new(rhs.clone()) },
        }
    }

    /// Bitwise and.
    pub fn and(&self, other: &Expr) -> (r: Expr)
        requires
            self.wf(),
            other.wf(),
            self.width() == other.width(),
        ensures
            r == Expr::spec_binary(BinOp::And, *self, *other),
            r.wf(),
            r.width() == self.width(),
    {
        Expr::binary(BinOp::And, self, other)
    }

    /// Bitwise or.
    pub fn or(&self, other: &Expr) -> (r: Expr)
        requires
            self.wf(),
            other.wf(),
            self.width() == other.width(),
        ensures
            r == Expr::spec_binary(BinOp::Or, *self, *other),
            r.wf(),
            r.width() == self.width(),
    {
        Expr::binary(BinOp::Or, self, other)
    }

    /// Bitwise exclusive or.
    pub fn xor(&self, other: &Expr) -> (r: Expr)
        requires
            self.wf(),
            other.wf(),
            self.width() == other.width(),
        ensures
            r == Expr::spec_binary(BinOp::Xor, *self, *other),
            r.wf(),
            r.width() == self.width(),
    {
        Expr::binary(BinOp::Xor, self, other)
    }

    /// Sum modulo two to the power of the width.
    pub fn add(&self, other: &Expr) -> (r: Expr)
        requires
            self.wf(),
            other.wf(),
            self.width() == other.width(),
        ensures
            r == Expr::spec_binary(BinOp::Add, *self, *other),
            r.wf(),
            r.width() == self.width(),
    {
        Expr::binary(BinOp::Add, self, other)
    }

    /// Difference modulo two to the power of the width.
    pub fn sub(&self, other: &Expr) -> (r: Expr)
        requires
            self.wf(),
            other.wf(),
            self.width() == other.width(),
        ensures
            r == Expr::spec_binary(BinOp::Sub, *self, *other),
            r.wf(),
            r.width() == self.width(),
    {
        Expr::binary(BinOp::Sub, self, other)
    }

    /// Shift left by the value of `other`; zeros come in.
    pub fn sll(&self, other: &Expr) -> (r: Expr)
        requires
            self.wf(),
            other.wf(),
            self.width() == other.width(),
        ensures
            r == Expr::spec_binary(BinOp::Shl, *self, *other),
            r.wf(),
            r.width() == self.width(),
    {
        Expr::binary(BinOp::Shl, self, other)
    }

    /// Shift right by the value of `other`; zeros come in.
    pub fn srl(&self, other: &Expr) -> (r: Expr)
        requires
            self.wf(),
            other.wf(),
            self.width() == other.width(),
        ensures
            r == Expr::spec_binary(BinOp::Lshr, *self, *other),
            r.wf(),
            r.width() == self.width(),
    {
        Expr::binary(BinOp::Lshr, self, other)
    }

    /// Shift right by the value of `other`; the top bit comes in.
    pub fn sra(&self, other: &Expr) -> (r: Expr)
        requires
            self.wf(),
            other.wf(),
            self.width() == other.width(),
        ensures
            r == Expr::spec_binary(BinOp::Ashr, *self, *other),
            r.wf(),
            r.width() == self.width(),
    {
        Expr::binary(BinOp::Ashr, self, other)
    }

    /// One bit that says whether the two sides are equal. Two constants are
    /// compared at once, and an expression equals itself.
    pub open spec fn spec_eq(self, other: Expr) -> Expr {
        match (self, other) {
            (Expr::Const { value: a, width: _ }, Expr::Const { value: b, width: _ }) => {
                Expr::spec_from_bool(a == b)
            },
            _ => if self.eqv(other) {
                Expr::spec_from_bool(true)
            } else {
                Expr::Equal { lhs: Box::new(self), rhs: Box::new(other) }
            },
        }
    }

    /// One bit that says whether the two sides are equal. Two constants are
    /// compared at once, and an expression equals itself.
    pub fn eq(&self, other: &Expr) -> (r: Expr)
        requires
            self.wf(),
            other.wf(),
            self.width() == other.width(),
        ensures
            r == self.spec_eq(*other),
            r.wf(),
            r.width() == 1,
    {
        match (self, other) {
            (Expr::Const { value: a, width: _ }, Expr::Const { value: b, width: _ }) => {
                Expr::from_bool(*a == *b)
            },
            _ => if self.same(other) {
                Expr::from_bool(true)
            } else {
                Expr::Equal { lhs: Box::new(self.clone()), rhs: Box::new(other.clone()) }
            },
        }
    }

    /// One bit that says whether the two sides differ.
    pub open spec fn spec_ne(self, other: Expr) -> Expr {
        self.spec_eq(other).spec_not()
    }

    /// One bit that says whether the two sides differ.
    pub fn ne(&self, other: &Expr) -> (r: Expr)
        requires
            self.wf(),
            other.wf(),
            self.width() == other.width(),
        ensures
            r == self.spec_ne(*other),
            r.wf(),
            r.width() == 1,
    {
        self.eq(other).not()
    }

    /// `then` where `cond` is 1 and `otherwise` where it is 0; a constant
    /// condition selects at once.
    pub open spec fn spec_ite(cond: Expr, then: Expr, otherwise: Expr) -> Expr {
        match cond {
            Expr::Const { value, width } => if value == 1 {
                then
            } else {
                otherwise
            },
            _ => Expr::Ite {
                cond: Box::new(cond),
                then: Box::new(then),
                otherwise: Box::new(otherwise),
            },
        }
    }

    /// `then` where `cond` is 1 and `otherwise` where it is 0; a constant
    /// condition selects at once.
    pub fn ite(cond: &Expr, then: Expr, otherwise: Expr) -> (r: Expr)
        requires
            cond.wf(),
            cond.width() == 1,
            then.wf(),
            otherwise.wf(),
            then.width() == otherwise.width(),
        ensures
            r == Expr::spec_ite(*cond, then, otherwise),
            r.wf(),
            r.width() == then.width(),
    {
        match cond {
            Expr::Const { value, width } => if *value == 1 {
                then
            } else {
                otherwise
            },
            _ => Expr::Ite {
                cond: Box::new(cond.clone()),
                then: Box::new(then),
                otherwise: Box::new(otherwise),
            },
        }
    }

    /// Bits `lo..=hi`. A constant is cut at once, and the slice that covers
    /// the whole expression is the expression.
    pub open spec fn spec_slice(self, lo: u32, hi: u32) -> Expr {
        match self {
            Expr::Const { value, width } => Expr::Const {
                value: (value >> (lo as u64)) & mask((hi - lo + 1) as u32),
                width: (hi - lo + 1) as u32,
            },
            _ => if lo == 0 && hi + 1 == self.width() {
                self
            } else {
                Expr::Slice { arg: Box::new(self), lo, hi }
            },
        }
    }

    /// Bits `lo..=hi`. A constant is cut at once, and the slice that covers
    /// the whole expression is the expression.
    pub fn slice(&self, lo: u32, hi: u32) -> (r: Expr)
        requires
            self.wf(),
            lo <= hi < self.width(),
        ensures
            r == self.spec_slice(lo, hi),
            r.wf(),
            r.width() == hi - lo + 1,
    {
        match self {
            Expr::Const { value, width } => {
                let m: u64 = mask_of(hi - lo + 1);
                let shifted: u64 = *value >> lo;
                assert(shifted & m <= m) by (bit_vector);
                Expr::Const { value: shifted & m, width: hi - lo + 1 }
            },
            _ => {
                let whole: u32 = self.len();
                if lo == 0 && hi == whole - 1 {
                    self.clone()
                } else {
                    Expr::Slice { arg: Box::new(self.clone()), lo, hi }
                }
            },
        }
    }

    /// The value of two constants placed one above the other.
    pub open spec fn concat_value(high: u64, low: u64, low_width: u32) -> u64 {
        (high << (low_width as u64)) | low
    }

    /// `self` placed above `low`. Two constants of at most 64 bits in all
    /// are joined at once, and two adjoining slices of one expression become
    /// one slice.
    pub open spec fn spec_concat(self, low: Expr) -> Expr {
        match (self, low) {
            (Expr::Const { value: vh, width: wh }, Expr::Const { value: vl, width: wl }) => if wh
                + wl <= 64 {
                Expr::Const { value: Expr::concat_value(vh, vl, wl), width: (wh + wl) as u32 }
            } else {
                Expr::Concat { high: Box::new(self), low: Box::new(low) }
            },
            (
                Expr::Slice { arg: a1, lo: lo1, hi: hi1 },
                Expr::Slice { arg: a2, lo: lo2, hi: hi2 },
            ) => if a1.eqv(*a2) && lo1 == hi2 + 1 {
                a1.spec_slice(lo2, hi1)
            } else {
                Expr::Concat { high: Box::new(self), low: Box::new(low) }
            },
            _ => Expr::Concat { high: Box::new(self), low: Box::new(low) },
        }
    }

    /// `self` placed above `low`. Two constants of at most 64 bits in all
    /// are joined at once, and two adjoining slices of one expression become
    /// one slice.
    pub fn concat(&self, low: &Expr) -> (r: Expr)
        requires
            self.wf(),
            low.wf(),
            self.width() + low.width() <= u32::MAX,
        ensures
            r == self.spec_concat(*low),
            r.wf(),
            r.width() == self.width() + low.width(),
    {
        match (self, low) {
            (Expr::Const { value: vh, width: wh }, Expr::Const { value: vl, width: wl }) => {
                if *wh + *wl <= 64 {
                    proof {
                        lemma_concat_fits(*vh, *wh, *vl, *wl);
                    }
                    Expr::Const { value: (*vh << *wl) | *vl, width: *wh + *wl }
                } else {
                    Expr::Concat { high: Box::new(self.clone()), low: Box::new(low.clone()) }
                }
            },
            (
                Expr::Slice { arg: a1, lo: lo1, hi: hi1 },
                Expr::Slice { arg: a2, lo: lo2, hi: hi2 },
            ) => {
                if *hi2 < u32::MAX && *lo1 == *hi2 + 1 && a1.same(a2) {
                    a1.slice(*lo2, *hi1)
                } else {
                    Expr::Concat { high: Box::new(self.clone()), low: Box::new(low.clone()) }
                }
            },
            _ => Expr::Concat { high: Box::new(self.clone()), low: Box::new(low.clone()) },
        }
    }

    /// `self` widened to `width` bits with zeros. Nothing changes where the
    /// width stays; a constant is widened at once if 64 bits hold it.
    pub open spec fn spec_zero_ext(self, width: u32) -> Expr {
        if self.width() == width {
            self
        } else {
            match self {
                Expr::Const { value, width: _ } => if width <= 64 {
                    Expr::Const { value, width }
                } else {
                    Expr::ZeroExt { arg: Box::new(self), width }
                },
                _ => Expr::ZeroExt { arg: Box::new(self), width },
            }
        }
    }

    /// `self` widened to `width` bits with zeros. Nothing changes where the
    /// width stays; a constant is widened at once if 64 bits hold it.
    pub fn zero_ext(&self, width: u32) -> (r: Expr)
        requires
            self.wf(),
            self.width() <= width,
        ensures
            r == self.spec_zero_ext(width),
            r.wf(),
            r.width() == width,
    {
        if self.len() == width {
            self.clone()
        } else {
            match self {
                Expr::Const { value, width: narrow } => if width <= 64 {
                    proof {
                        lemma_mask_monotone(*narrow, width);
                    }
                    Expr::Const { value: *value, width }
                } else {
                    Expr::ZeroExt { arg: Box::new(self.clone()), width }
                },
                _ => Expr::ZeroExt { arg: Box::new(self.clone()), width },
            }
        }
    }

    /// The expression in its simplest form. The constructors fold as they
    /// build, so that form is the expression itself.
    pub fn simplify(&self) -> (r: Expr)
        ensures
            r == *self,
    {
        self.clone()
    }
}

/// Two constants placed one above the other fit the sum of their widths.
pub proof fn lemma_concat_fits(vh: u64, wh: u32, vl: u64, wl: u32)
    requires
        1 <= wh,
        1 <= wl,
        wh + wl <= 64,
        vh <= mask(wh),
        vl <= mask(wl),
    ensures
        Expr::concat_value(vh, vl, wl) <= mask((wh + wl) as u32),
{
    if wh + wl < 64 {
        let a: u64 = wh as u64;
        let b: u64 = wl as u64;
        lemma_mask_shape(wh);
        lemma_mask_shape(wl);
        lemma_mask_shape((wh + wl) as u32);
        assert(a + b < 64 && (1u64 << a) >= 1 && (1u64 << b) >= 1 && vh <= (1u64 << a) - 1 && vl
            <= (1u64 << b) - 1 ==> ((vh << b) | vl) <= (1u64 << ((a + b) as u64)) - 1)
            by (bit_vector);
    }
}

impl Clone for Expr {
    fn clone(&self) -> (r: Self)
        ensures
            r == *self,
        decreases *self,
    {
        match self {
            Expr::Const { value, width } => Expr::Const { value: *value, width: *width },
            Expr::Symbol { name, width } => Expr::Symbol { name: name.clone(), width: *width },
            Expr::Initial { address } => Expr::Initial { address: Box::new((**address).clone()) },
            Expr::Not { arg } => Expr::Not { arg: Box::new((**arg).clone()) },
            Expr::Binary { op, lhs, rhs } => Expr::Binary {
                op: *op,
                lhs: Box::new((**lhs).clone()),
                rhs: Box::new((**rhs).clone()),
            },
            Expr::Equal { lhs, rhs } => Expr::Equal {
                lhs: Box::new((**lhs).clone()),
                rhs: Box::new((**rhs).clone()),
            },
            Expr::Ite { cond, then, otherwise } => Expr::Ite {
                cond: Box::new((**cond).clone()),
                then: Box::new((**then).clone()),
                otherwise: Box::new((**otherwise).clone()),
            },
            Expr::Concat { high, low } => Expr::Concat {
                high: Box::new((**high).clone()),
                low: Box::new((**low).clone()),
            },
            Expr::Slice { arg, lo, hi } => Expr::Slice {
                arg: Box::new((**arg).clone()),
                lo: *lo,
                hi: *hi,
            },
            Expr::ZeroExt { arg, width } => Expr::ZeroExt {
                arg: Box::new((**arg).clone()),
                width: *width,
            },
        }
    }
}

} // verus!
