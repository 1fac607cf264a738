//! Word-level semantics of the arithmetic and logic instructions, and the
//! per-row relations that the ALU chips check.
use vstd::arithmetic::div_mod::lemma_fundamental_div_mod_converse;
use vstd::arithmetic::power2::pow2;
use vstd::bits::{lemma_u32_shr_is_div, lemma_u64_shl_is_mul, lemma_u64_pow2_no_overflow};
use vstd::prelude::*;

verus! {

/// Number of distinct 32-bit words.
pub const WORD_MOD: u64 = 0x1_0000_0000;

/// The operation families handled by the ALU chips.
#[derive(Clone, Copy, Debug, PartialEq, Eq, Structural)]
pub enum AluOp {
    Add,
    Sub,
    Sll,
    Slt,
    Sltu,
    Xor,
    Srl,
    Sra,
    Or,
    And,
    Mul,
    Mulh,
    Mulhsu,
    Mulhu,
    Div,
    Divu,
    Rem,
    Remu,
}

/// The word that represents the integer `x` (reduction modulo 2^32).
pub open spec fn to_word(x: int) -> u32 {
    (x % (WORD_MOD as int)) as u32
}

/// The two's-complement reading of a word.
pub open spec fn signed(w: u32) -> int {
    if w < 0x8000_0000 {
        w as int
    } else {
        w as int - WORD_MOD as int
    }
}

/// Magnitude of an integer.
pub open spec fn magnitude(a: int) -> int {
    if a < 0 {
        -a
    } else {
        a
    }
}

/// Quotient of `a / d` rounded towards zero, as the instruction set defines it.
pub open spec fn trunc_div(a: int, d: int) -> int
    recommends
        d != 0,
{
    let q = magnitude(a) / magnitude(d);
    if (a < 0) == (d < 0) {
        q
    } else {
        -q
    }
}

/// Remainder that goes with `trunc_div`; it has the sign of the dividend.
pub open spec fn trunc_rem(a: int, d: int) -> int
    recommends
        d != 0,
{
    a - d * trunc_div(a, d)
}

/// The shift amount that a shift instruction uses: the low five bits.
pub open spec fn shamt(c: u32) -> u32 {
    c % 32
}

/// The result word of operation `op` on operands `b` and `c`.
pub open spec fn alu_spec(op: AluOp, b: u32, c: u32) -> u32 {
    match op {
        AluOp::Add => to_word(b + c),
        AluOp::Sub => to_word(b - c),
        AluOp::Sll => to_word(b * pow2(shamt(c) as nat)),
        AluOp::Slt => if signed(b) < signed(c) { 1 } else { 0 },
        AluOp::Sltu => if b < c { 1 } else { 0 },
        AluOp::Xor => b ^ c,
        AluOp::Srl => (b as int / pow2(shamt(c) as nat) as int) as u32,
        AluOp::Sra => to_word(signed(b) / pow2(shamt(c) as nat) as int),
        AluOp::Or => b | c,
        AluOp::And => b & c,
        AluOp::Mul => to_word(b * c),
        AluOp::Mulh => to_word((signed(b) * signed(c)) / (WORD_MOD as int)),
        AluOp::Mulhsu => to_word((signed(b) * c) / (WORD_MOD as int)),
        AluOp::Mulhu => ((b * c) / (WORD_MOD as int)) as u32,
        AluOp::Div => if c == 0 {
            0xffff_ffff
        } else {
            to_word(trunc_div(signed(b), signed(c)))
        },
        AluOp::Divu => if c == 0 {
            0xffff_ffff
        } else {
            (b / c) as u32
        },
        AluOp::Rem => if c == 0 {
            b
        } else {
            to_word(trunc_rem(signed(b), signed(c)))
        },
        AluOp::Remu => if c == 0 {
            b
        } else {
            (b % c) as u32
        },
    }
}

/// Arithmetic shift right of a word whose top bit is set: the complement
/// is shifted logically and complemented back.
proof fn lemma_sra_negative(b: u32, s: u32)
    requires
        b >= 0x8000_0000,
        s < 32,
    ensures
        to_word(signed(b) / pow2(s as nat) as int) == 0xffff_ffff - (0xffff_ffff - b) as int
            / pow2(s as nat) as int,
{
    let k = pow2(s as nat) as int;
    vstd::arithmetic::power2::lemma_pow2_pos(s as nat);
    let nb = 0xffff_ffff - b as int;
    let q = nb / k;
    let r = nb % k;
    vstd::arithmetic::div_mod::lemma_fundamental_div_mod(nb, k);
    assert(signed(b) == (-q - 1) * k + (k - r - 1)) by (nonlinear_arith)
        requires
            signed(b) == -nb - 1,
            nb == k * q + r,
    ;
    lemma_fundamental_div_mod_converse(signed(b), k, -q - 1, k - r - 1);
    assert(0 <= q <= nb) by {
        vstd::arithmetic::div_mod::lemma_div_pos_is_pos(nb, k);
        vstd::arithmetic::div_mod::lemma_div_is_ordered_by_denominator(nb, 1, k);
    }
}

proof fn lemma_signed_product(b: u32, c_unused: int, mb: int, mc: int, negative: bool)
    requires
        mb == magnitude(signed(b)),
        mc >= 0,
        negative == (b >= 0x8000_0000) != (c_unused >= 0x8000_0000),
        c_unused >= 0 && c_unused <= 0xffff_ffff,
        mc == magnitude(signed(c_unused as u32)),
    ensures
        signed(b) * signed(c_unused as u32) == if negative && mb * mc != 0 { -(mb * mc) } else { mb * mc },
{
    let sb = signed(b);
    let sc = signed(c_unused as u32);
    assert(sb * sc == if (sb < 0) != (sc < 0) { -(mb * mc) } else { mb * mc }) by (nonlinear_arith)
        requires
            mb == magnitude(sb),
            mc == magnitude(sc),
    ;
}

proof fn lemma_signed_product_unsigned(b: u32, c: u32, mb: int)
    requires
        mb == magnitude(signed(b)),
    ensures
        signed(b) * c == if b >= 0x8000_0000 && mb * c != 0 { -(mb * c) } else { mb * c },
{
    let sb = signed(b);
    assert(sb * c == if sb < 0 { -(mb * c) } else { mb * c }) by (nonlinear_arith)
        requires
            mb == magnitude(sb),
    ;
}

/// Magnitude of a word read as a signed number, as a `u64`.
fn signed_magnitude(w: u32) -> (r: u64)
    ensures
        r as int == magnitude(signed(w)),
{
    if w < 0x8000_0000 {
        w as u64
    } else {
        WORD_MOD - w as u64
    }
}

/// The word for `q` when `negative` says to negate it.
fn signed_word(q: u64, negative: bool) -> (r: u32)
    requires
        q < WORD_MOD,
    ensures
        r == to_word(if negative { -(q as int) } else { q as int }),
{
    if !negative || q == 0 {
        q as u32
    } else {
        (WORD_MOD - q) as u32
    }
}

/// Computes the result word of `op` on `b` and `c`.
pub fn alu_exec(op: AluOp, b: u32, c: u32) -> (r: u32)
    ensures
        r == alu_spec(op, b, c),
{
    match op {
        AluOp::Add => ((b as u64 + c as u64) % WORD_MOD) as u32,
        AluOp::Sub => ((b as u64 + WORD_MOD - c as u64) % WORD_MOD) as u32,
        AluOp::Sll => {
            let s: u32 = c % 32;
            let p: u64 = 1u64 << (s as u64);
            proof {
                lemma_u64_pow2_no_overflow(s as nat);
                lemma_u64_shl_is_mul(1, s as u64);
                vstd::arithmetic::power2::lemma2_to64();
                if s < 31 {
                    vstd::arithmetic::power2::lemma_pow2_strictly_increases(s as nat, 31);
                }
                assert(b as int * p as int <= 0xffff_ffff * 0x8000_0000) by (nonlinear_arith)
                    requires
                        p <= 0x8000_0000,
                        b <= 0xffff_ffff,
                ;
            }
            ((b as u64 * p) % WORD_MOD) as u32
        },
        AluOp::Slt => {
            if signed_less(b, c) {
                1
            } else {
                0
            }
        },
        AluOp::Sltu => {
            if b < c {
                1
            } else {
                0
            }
        },
        AluOp::Xor => b ^ c,
        AluOp::Srl => {
            let s: u32 = c % 32;
            proof {
                lemma_u32_shr_is_div(b, s);
            }
            b >> s
        },
        AluOp::Sra => {
            let s: u32 = c % 32;
            if b < 0x8000_0000 {
                proof {
                    lemma_u32_shr_is_div(b, s);
                }
                b >> s
            } else {
                proof {
                    lemma_u32_shr_is_div((0xffff_ffff - b) as u32, s);
                    lemma_sra_negative(b, s);
                }
                0xffff_ffff - ((0xffff_ffff - b) >> s)
            }
        },
        AluOp::Or => b | c,
        AluOp::And => b & c,
        AluOp::Mul => {
            proof {
                assert(b as int * c as int <= 0xffff_ffff * 0xffff_ffff) by (nonlinear_arith)
                    requires
                        b <= 0xffff_ffff,
                        c <= 0xffff_ffff,
                ;
            }
            ((b as u64 * c as u64) % WORD_MOD) as u32
        },
        AluOp::Mulh => {
            let mb = signed_magnitude(b);
            let mc = signed_magnitude(c);
            proof {
                assert(mb as int * mc as int <= 0x8000_0000 * 0x8000_0000) by (nonlinear_arith)
                    requires
                        mb <= 0x8000_0000,
                        mc <= 0x8000_0000,
                ;
                lemma_signed_product(b, c as int, mb as int, mc as int, (b >= 0x8000_0000) != (c >= 0x8000_0000));
            }
            high_word(mb * mc, (b >= 0x8000_0000) != (c >= 0x8000_0000) && mb * mc != 0)
        },
        AluOp::Mulhsu => {
            let mb = signed_magnitude(b);
            proof {
                assert(mb as int * c as int <= 0x8000_0000 * 0xffff_ffff) by (nonlinear_arith)
                    requires
                        mb <= 0x8000_0000,
                        c <= 0xffff_ffff,
                ;
                lemma_signed_product_unsigned(b, c, mb as int);
            }
            high_word(mb * c as u64, b >= 0x8000_0000 && mb * c as u64 != 0)
        },
        AluOp::Mulhu => {
            proof {
                assert(b as int * c as int <= 0xffff_ffff * 0xffff_ffff) by (nonlinear_arith)
                    requires
                        b <= 0xffff_ffff,
                        c <= 0xffff_ffff,
                ;
                vstd::arithmetic::div_mod::lemma_div_is_ordered(b as int * c as int, (0xffff_ffff * 0xffff_ffff) as int, WORD_MOD as int);
            }
            ((b as u64 * c as u64) / WORD_MOD) as u32
        },
        AluOp::Div => {
            if c == 0 {
                0xffff_ffff
            } else {
                let mb = signed_magnitude(b);
                let mc = signed_magnitude(c);
                let q = mb / mc;
                proof {
                    vstd::arithmetic::div_mod::lemma_div_is_ordered_by_denominator(mb as int, 1, mc as int);
                }
                signed_word(q, (b < 0x8000_0000) != (c < 0x8000_0000))
            }
        },
        AluOp::Divu => {
            if c == 0 {
                0xffff_ffff
            } else {
                b / c
            }
        },
        AluOp::Rem => {
            if c == 0 {
                b
            } else {
                let mb = signed_magnitude(b);
                let mc = signed_magnitude(c);
                let m = mb % mc;
                proof {
                    let q = trunc_div(signed(b), signed(c));
                    vstd::arithmetic::div_mod::lemma_fundamental_div_mod(mb as int, mc as int);
                    assert(trunc_rem(signed(b), signed(c)) == if b < 0x8000_0000 { m as int } else { -(m as int) }) by (nonlinear_arith)
                        requires
                            mb as int == magnitude(signed(b)),
                            mc as int == magnitude(signed(c)),
                            mb as int == mc as int * (mb as int / mc as int) + m as int,
                            q == trunc_div(signed(b), signed(c)),
                            q == if (signed(b) < 0) == (signed(c) < 0) { mb as int / mc as int } else { -(mb as int / mc as int) },
                            signed(b) < 0 <==> b >= 0x8000_0000,
                    ;
                }
                signed_word(m, b >= 0x8000_0000)
            }
        },
        AluOp::Remu => {
            if c == 0 {
                b
            } else {
                b % c
            }
        },
    }
}

/// The high word of the product `p`, where `p` is `mag` with the sign
/// `negative`: `p / 2^32` rounded down, as a word.
fn high_word(mag: u64, negative: bool) -> (r: u32)
    requires
        mag < 0x8000_0000_0000_0000,
    ensures
        r == to_word((if negative { -(mag as int) } else { mag as int }) / (WORD_MOD as int)),
{
    let half: u64 = 0x8000_0000_0000_0000;
    let x: u64 = if negative {
        half - mag
    } else {
        half + mag
    };
    let t: u64 = x / WORD_MOD;
    proof {
        let p: int = if negative { -(mag as int) } else { mag as int };
        let d = WORD_MOD as int;
        assert(x as int == p + 0x8000_0000_0000_0000);
        vstd::arithmetic::div_mod::lemma_fundamental_div_mod(x as int, d);
        lemma_fundamental_div_mod_converse(p, d, t - 0x8000_0000, x as int % d);
        assert(t <= 0x1_0000_0000) by {
            vstd::arithmetic::div_mod::lemma_div_is_ordered(x as int, 0xffff_ffff_ffff_ffff, d);
        }
        vstd::arithmetic::div_mod::lemma_mod_add_multiples_vanish(t - 0x8000_0000, d);
    }
    ((t + 0x8000_0000) % WORD_MOD) as u32
}

/// Signed comparison of two words.
fn signed_less(b: u32, c: u32) -> (r: bool)
    ensures
        r == (signed(b) < signed(c)),
{
    let nb = b >= 0x8000_0000;
    let nc = c >= 0x8000_0000;
    if nb != nc {
        nb
    } else {
        b < c
    }
}

/// A row of the add/sub chip: operands, claimed result, and the carry (for
/// an addition) or borrow (for a subtraction) column.
#[derive(Clone, Copy, Debug, PartialEq, Eq, Structural)]
pub struct CarryRow {
    pub b: u32,
    pub c: u32,
    pub a: u32,
    pub carry: u32,
}

/// The add chip's constraints on a row: the carry is a bit and
/// `b + c == a + carry * 2^32`.
pub open spec fn add_constraints(row: CarryRow) -> bool {
    &&& row.carry * (row.carry - 1) == 0
    &&& row.b + row.c == row.a + row.carry * WORD_MOD
}

/// The sub chip's constraints on a row: the borrow is a bit and
/// `a + c == b + borrow * 2^32`.
pub open spec fn sub_constraints(row: CarryRow) -> bool {
    &&& row.carry * (row.carry - 1) == 0
    &&& row.a + row.c == row.b + row.carry * WORD_MOD
}

/// Builds the add chip's row for `b + c`.
pub fn add_row(b: u32, c: u32) -> (r: CarryRow)
    ensures
        r.b == b && r.c == c,
        r.a == alu_spec(AluOp::Add, b, c),
        add_constraints(r),
{
    let sum: u64 = b as u64 + c as u64;
    let carry: u32 = if sum >= WORD_MOD { 1 } else { 0 };
    CarryRow { b, c, a: (sum % WORD_MOD) as u32, carry }
}

/// Builds the sub chip's row for `b - c`.
pub fn sub_row(b: u32, c: u32) -> (r: CarryRow)
    ensures
        r.b == b && r.c == c,
        r.a == alu_spec(AluOp::Sub, b, c),
        sub_constraints(r),
{
    let borrow: u32 = if b < c { 1 } else { 0 };
    CarryRow { b, c, a: alu_exec(AluOp::Sub, b, c), carry: borrow }
}

/// Evaluates the add chip's constraints on `row`.
pub fn check_add_row(row: CarryRow) -> (r: bool)
    ensures
        r == add_constraints(row),
{
    (row.carry == 0 || row.carry == 1) && row.b as u64 + row.c as u64 == row.a as u64
        + row.carry as u64 * WORD_MOD
}

/// Evaluates the sub chip's constraints on `row`.
pub fn check_sub_row(row: CarryRow) -> (r: bool)
    ensures
        r == sub_constraints(row),
{
    (row.carry == 0 || row.carry == 1) && row.a as u64 + row.c as u64 == row.b as u64
        + row.carry as u64 * WORD_MOD
}

/// The add chip's constraints hold of a row exactly when it claims the sum
/// that the instruction set defines, with the matching carry.
pub proof fn lemma_add_row_sound(row: CarryRow)
    ensures
        add_constraints(row) ==> row.a == alu_spec(AluOp::Add, row.b, row.c),
        add_constraints(row) <==> row == add_row_spec(row.b, row.c),
{
    if add_constraints(row) {
        assert(row.carry == 0 || row.carry == 1) by (nonlinear_arith)
            requires
                row.carry * (row.carry - 1) == 0,
        ;
    }
}

/// The sub chip's constraints hold of a row exactly when it claims the
/// difference that the instruction set defines, with the matching borrow.
pub proof fn lemma_sub_row_sound(row: CarryRow)
    ensures
        sub_constraints(row) ==> row.a == alu_spec(AluOp::Sub, row.b, row.c),
        sub_constraints(row) <==> row == sub_row_spec(row.b, row.c),
{
    if sub_constraints(row) {
        assert(row.carry == 0 || row.carry == 1) by (nonlinear_arith)
            requires
                row.carry * (row.carry - 1) == 0,
        ;
    }
}

/// The honest add row for `b + c`.
pub open spec fn add_row_spec(b: u32, c: u32) -> CarryRow {
    CarryRow { b, c, a: alu_spec(AluOp::Add, b, c), carry: if b + c >= WORD_MOD { 1 } else { 0 } }
}

/// The honest sub row for `b - c`.
pub open spec fn sub_row_spec(b: u32, c: u32) -> CarryRow {
    CarryRow { b, c, a: alu_spec(AluOp::Sub, b, c), carry: if b < c { 1 } else { 0 } }
}

/// A row of the multiply chip: operands and the low and high words of
/// their product.
#[derive(Clone, Copy, Debug, PartialEq, Eq, Structural)]
pub struct MulRow {
    pub b: u32,
    pub c: u32,
    pub lo: u32,
    pub hi: u32,
}

/// The multiply chip's constraint: `b * c == lo + hi * 2^32`.
pub open spec fn mul_constraints(row: MulRow) -> bool {
    row.b * row.c == row.lo + row.hi * WORD_MOD
}

/// A row of the unsigned divide chip: operands, quotient and remainder.
#[derive(Clone, Copy, Debug, PartialEq, Eq, Structural)]
pub struct DivRow {
    pub b: u32,
    pub c: u32,
    pub q: u32,
    pub r: u32,
}

/// The unsigned divide chip's constraints: for a nonzero divisor,
/// `b == q * c + r` with `r < c`; for a zero divisor, all ones and `b`.
pub open spec fn divu_constraints(row: DivRow) -> bool {
    if row.c == 0 {
        row.q == 0xffff_ffff && row.r == row.b
    } else {
        row.b == row.q * row.c + row.r && row.r < row.c
    }
}

/// The multiply chip's constraint holds of a row exactly when it claims the
/// low word (`Mul`) and high word (`Mulhu`) that the instruction set defines.
pub proof fn lemma_mul_row_sound(row: MulRow)
    ensures
        mul_constraints(row) <==> (row.lo == alu_spec(AluOp::Mul, row.b, row.c) && row.hi
            == alu_spec(AluOp::Mulhu, row.b, row.c)),
{
    let p = row.b * row.c;
    let d = WORD_MOD as int;
    assert(0 <= p <= 0xffff_ffff * 0xffff_ffff) by (nonlinear_arith)
        requires
            p == row.b * row.c,
            row.b <= 0xffff_ffff,
            row.c <= 0xffff_ffff,
    ;
    vstd::arithmetic::div_mod::lemma_fundamental_div_mod(p, d);
    vstd::arithmetic::div_mod::lemma_div_is_ordered(p, (0xffff_ffff * 0xffff_ffff) as int, d);
    if mul_constraints(row) {
        lemma_fundamental_div_mod_converse(p, d, row.hi as int, row.lo as int);
    }
}

/// The unsigned divide chip's constraints hold of a row exactly when it
/// claims the quotient (`Divu`) and remainder (`Remu`) that the instruction
/// set defines.
pub proof fn lemma_divu_row_sound(row: DivRow)
    ensures
        divu_constraints(row) <==> (row.q == alu_spec(AluOp::Divu, row.b, row.c) && row.r
            == alu_spec(AluOp::Remu, row.b, row.c)),
{
    if row.c != 0 {
        vstd::arithmetic::div_mod::lemma_fundamental_div_mod(row.b as int, row.c as int);
        vstd::arithmetic::mul::lemma_mul_is_commutative(row.q as int, row.c as int);
        vstd::arithmetic::div_mod::lemma_mod_pos_bound(row.b as int, row.c as int);
        if divu_constraints(row) {
            lemma_fundamental_div_mod_converse(row.b as int, row.c as int, row.q as int, row.r as int);
        }
    }
}

/// Builds the multiply chip's row for `b * c`.
pub fn mul_row(b: u32, c: u32) -> (r: MulRow)
    ensures
        r.b == b && r.c == c,
        r.lo == alu_spec(AluOp::Mul, b, c),
        r.hi == alu_spec(AluOp::Mulhu, b, c),
        mul_constraints(r),
{
    let r = MulRow { b, c, lo: alu_exec(AluOp::Mul, b, c), hi: alu_exec(AluOp::Mulhu, b, c) };
    proof {
        lemma_mul_row_sound(r);
    }
    r
}

/// Builds the unsigned divide chip's row for `b / c`.
pub fn divu_row(b: u32, c: u32) -> (r: DivRow)
    ensures
        r.b == b && r.c == c,
        r.q == alu_spec(AluOp::Divu, b, c),
        r.r == alu_spec(AluOp::Remu, b, c),
        divu_constraints(r),
{
    let r = DivRow { b, c, q: alu_exec(AluOp::Divu, b, c), r: alu_exec(AluOp::Remu, b, c) };
    proof {
        lemma_divu_row_sound(r);
    }
    r
}

/// Evaluates the multiply chip's constraint on `row`.
pub fn check_mul_row(row: MulRow) -> (r: bool)
    ensures
        r == mul_constraints(row),
{
    proof {
        assert(row.b * row.c <= 0xffff_ffff * 0xffff_ffff) by (nonlinear_arith)
            requires
                row.b <= 0xffff_ffff,
                row.c <= 0xffff_ffff,
        ;
        assert(row.hi * WORD_MOD <= 0xffff_ffff * WORD_MOD) by (nonlinear_arith)
            requires
                row.hi <= 0xffff_ffff,
        ;
    }
    row.b as u64 * row.c as u64 == row.lo as u64 + row.hi as u64 * WORD_MOD
}

/// Evaluates the unsigned divide chip's constraints on `row`.
pub fn check_divu_row(row: DivRow) -> (r: bool)
    ensures
        r == divu_constraints(row),
{
    if row.c == 0 {
        row.q == 0xffff_ffff && row.r == row.b
    } else {
        proof {
            assert(row.q * row.c <= 0xffff_ffff * 0xffff_ffff) by (nonlinear_arith)
                requires
                    row.q <= 0xffff_ffff,
                    row.c <= 0xffff_ffff,
            ;
        }
        row.b as u64 == row.q as u64 * row.c as u64 + row.r as u64 && row.r < row.c
    }
}

} // verus!
