//! The compiler: script source to a compiled program.
//!
//! A recursive-descent reading of the script language's statement and
//! expression grammar.  Rejected source reports a compilation failure; the
//! reading itself is proved to stay in bounds and to terminate.

use vstd::prelude::*;

use crate::jx9::ast::{expr_pairs_view, expr_view, exprs_view, stmt_view, stmts_view, CmpOp, Expr,
    ExprS, Program, Stmt, StmtS};

verus! {

broadcast use {vstd::std_specs::vec::group_vec_axioms, vstd::seq::group_seq_axioms};

/// A space, tab, carriage return or line feed.
fn is_space(b: u8) -> (r: bool)
    ensures
        r == (b == 32 || b == 9 || b == 13 || b == 10),
{
    b == 32 || b == 9 || b == 13 || b == 10
}

/// A decimal digit.
fn is_digit(b: u8) -> (r: bool)
    ensures
        r == (48 <= b && b <= 57),
{
    48 <= b && b <= 57
}

/// A letter or underscore.
fn is_alpha(b: u8) -> (r: bool)
    ensures
        r == ((97 <= b && b <= 122) || (65 <= b && b <= 90) || b == 95),
{
    (97 <= b && b <= 122) || (65 <= b && b <= 90) || b == 95
}

/// Skip whitespace.
fn skip_ws(src: &[u8], i: usize) -> (j: usize)
    requires
        i <= src@.len(),
    ensures
        i <= j <= src@.len(),
        j == sp_ws(src@, i as int),
{
    let mut j = i;
    while j < src.len() && is_space(src[j])
        invariant
            i <= j <= src@.len(),
            sp_ws(src@, i as int) == sp_ws(src@, j as int),
        decreases src@.len() - j,
    {
        j = j + 1;
    }
    j
}

/// Whether the keyword stands at `i`, not run into by a longer name.
fn match_kw(src: &[u8], i: usize, kw: &[u8]) -> (r: bool)
    requires
        i <= src@.len(),
    ensures
        r ==> i + kw@.len() <= src@.len(),
        r == sp_kw(src@, i as int, kw@),
{
    let n = src.len();
    if kw.len() > n - i {
        return false;
    }
    let mut k: usize = 0;
    let mut j: usize = i;
    while k < kw.len()
        invariant
            0 <= k <= kw@.len(),
            j == i + k,
            i + kw@.len() <= src@.len(),
            n == src@.len(),
            forall|m: int| 0 <= m < k ==> src@[i + m] == kw@[m],
        decreases kw@.len() - k,
    {
        if src[j] != kw[k] {
            proof {
                assert(src@.subrange(i as int, i + kw@.len())[k as int] != kw@[k as int]);
            }
            return false;
        }
        k = k + 1;
        j = j + 1;
    }
    proof {
        assert(src@.subrange(i as int, i + kw@.len()) =~= kw@);
    }
    // the next byte must not extend the word
    if j < n {
        let word_next = src[j];
        if is_alpha(word_next) || is_digit(word_next) {
            return false;
        }
    }
    true
}

/// Read a name: a letter or underscore, then letters, digits and
/// underscores.
#[verifier::loop_isolation(false)]
fn parse_ident(src: &[u8], i: usize) -> (r: Result<(Vec<u8>, usize), ()>)
    requires
        i <= src@.len(),
    ensures
        r matches Ok(p) ==> i < p.1 <= src@.len(),
        match r {
            Ok(p) => sp_ident(src@, i as int) == Some((p.0@, p.1 as int)),
            Err(_) => sp_ident(src@, i as int) is None,
        },
{
    if i >= src.len() || !is_alpha(src[i]) {
        return Err(());
    }
    let mut j = i;
    let mut name: Vec<u8> = Vec::new();
    while j < src.len() && (is_alpha(src[j]) || is_digit(src[j]))
        invariant
            i <= j <= src@.len(),
            name@ =~= src@.subrange(i as int, j as int),
            sp_ident_end(src@, i as int) == sp_ident_end(src@, j as int),
        decreases src@.len() - j,
    {
        name.push(src[j]);
        j = j + 1;
        proof {
            assert(name@ =~= src@.subrange(i as int, j as int));
        }
    }
    if j == i {
        proof {
            assert(false);
        }
        Err(())
    } else {
        proof {
            assert(sp_ident_end(src@, j as int) == j);
            assert(sp_ident(src@, i as int) == Some((src@.subrange(i as int, j as int), j as int)));
        }
        Ok((name, j))
    }
}

/// Ten to the given power.
fn ten_pow(k: u32) -> (r: u128)
    requires
        k <= 19,
    ensures
        1 <= r <= 0x8ac7_2304_89e8_0000u128,
        r == pow10(k as int),
{
    proof {
        reveal_with_fuel(pow10, 21);
    }
    match k {
        0 => 1,
        1 => 10,
        2 => 100,
        3 => 1000,
        4 => 10000,
        5 => 100000,
        6 => 1000000,
        7 => 10000000,
        8 => 100000000,
        9 => 1000000000,
        10 => 10000000000,
        11 => 100000000000,
        12 => 1000000000000,
        13 => 10000000000000,
        14 => 100000000000000,
        15 => 1000000000000000,
        16 => 10000000000000000,
        17 => 100000000000000000,
        18 => 1000000000000000000,
        _ => 10000000000000000000,
    }
}

/// The bits of the 64-bit floating-point value closest to `n / 10^k`, ties
/// to even — the value a real literal with digits `n` and `k` decimal
/// places denotes.
#[verifier::loop_isolation(false)]
fn decimal_to_bits(n: u64, k: u32) -> (r: Result<u64, ()>)
    requires
        k <= 19,
    ensures
        match r {
            Ok(b) => sp_dec_bits(n as int, k as int) == Some(b),
            Err(_) => sp_dec_bits(n as int, k as int) is None,
        },
{
    if n == 0 {
        return Ok(0);
    }
    let two52: u128 = 0x10_0000_0000_0000;
    let two53: u128 = 0x20_0000_0000_0000;
    let mut den: u128 = ten_pow(k);
    let ghost den0 = den as int;
    let mut num: u128 = n as u128;
    let mut e: i32 = 52;
    // scale the numerator up until the quotient reaches two to the 52nd
    while num < den * two52 && e > -1100
        invariant
            two52 == 0x10_0000_0000_0000u128,
            1 <= den <= 0x8ac7_2304_89e8_0000u128,
            den == den0,
            1 <= num <= 0x20_0000_0000_0000_0000_0000_0000_0000u128,
            -1100 <= e <= 52,
            sp_scale_num(n as int, den0, 52) == sp_scale_num(num as int, den as int, e as int),
        decreases e + 1100,
    {
        num = num * 2;
        e = e - 1;
    }
    let ghost sn = sp_scale_num(n as int, den0, 52);
    proof {
        assert(sn == (num as int, e as int));
    }
    if e <= -1100 {
        return Err(());
    }
    // scale the denominator up until the quotient drops below two to the 53rd
    while num >= den * two53 && e < 1100
        invariant
            two53 == 0x20_0000_0000_0000u128,
            1 <= den <= 0x2_0000_0000_0000_0000u128,
            1 <= num <= 0x20_0000_0000_0000_0000_0000_0000_0000u128,
            num == sn.0,
            -1100 <= e <= 1100,
            sp_scale_den(sn.0, den0, sn.1) == sp_scale_den(num as int, den as int, e as int),
        decreases 1100 - e,
    {
        den = den * 2;
        e = e + 1;
    }
    let ghost sd = sp_scale_den(sn.0, den0, sn.1);
    proof {
        assert(sd == (den as int, e as int));
    }
    if e >= 1100 {
        return Err(());
    }
    let mut q: u128 = num / den;
    let rem: u128 = num % den;
    if q < two52 || q > two53 {
        // the scaling loops leave the quotient in the 53-bit range
        return Err(());
    }
    if rem > den - rem || (rem == den - rem && q % 2 == 1) {
        q = q + 1;
        if q == two53 {
            q = two52;
            e = e + 1;
        }
    }
    if q >= two53 {
        return Err(());
    }
    let ef: i32 = e + 1023;
    if ef <= 0 || ef >= 2047 {
        return Err(());
    }
    let mantissa: u64 = (q as u64) % 0x10_0000_0000_0000u64;
    Ok(((ef as u64) << 52u32) | mantissa)
}

/// Read a number literal, integer or real, with an optional leading minus.
#[verifier::loop_isolation(false)]
fn parse_number(src: &[u8], i: usize) -> (r: Result<(Expr, usize), ()>)
    requires
        i <= src@.len(),
    ensures
        r matches Ok(p) ==> i < p.1 <= src@.len(),
        match r {
            Ok(p) => sp_number(src@, i as int) == Some((expr_view(p.0), p.1 as int)),
            Err(_) => sp_number(src@, i as int) is None,
        },
{
    let n = src.len();
    let mut j = i;
    let mut negative = false;
    if j < n && src[j] == 45 {
        negative = true;
        j = j + 1;
    }
    if j >= n || !is_digit(src[j]) {
        return Err(());
    }
    let ghost d0 = j as int;
    let mut digits: u64 = (src[j] - 48) as u64;
    let ghost acc0 = digits;
    j = j + 1;
    while j < n && is_digit(src[j])
        invariant
            i < j <= src@.len(),
            n == src@.len(),
            digits < 0x8ac7_2304_89e8_0000u64,
            sp_digits(src@, d0 + 1, acc0) == sp_digits(src@, j as int, digits),
        decreases src@.len() - j,
    {
        if digits >= 0x0de0_b6b3_a764_0000u64 {
            // too many digits for the machine's numbers
            return Err(());
        }
        digits = digits * 10 + ((src[j] - 48) as u64);
        j = j + 1;
    }
    proof {
        assert(sp_digits(src@, j as int, digits) == Some((digits, j as int)));
    }
    if j < n && src[j] == 46 && j + 1 < n && is_digit(src[j + 1]) {
        // a real literal: more digits after the point
        let ghost dot = j as int;
        let mut frac: u32 = 0;
        j = j + 1;
        while j < n && is_digit(src[j])
            invariant
                i < j <= src@.len(),
                n == src@.len(),
                frac <= 19,
                digits < 0x8ac7_2304_89e8_0000u64,
                sp_frac(src@, dot + 1, sp_digits(src@, d0 + 1, acc0)->Some_0.0, 0) == sp_frac(
                    src@,
                    j as int,
                    digits,
                    frac,
                ),
            decreases src@.len() - j,
        {
            if digits >= 0x0de0_b6b3_a764_0000u64 || frac >= 19 {
                return Err(());
            }
            digits = digits * 10 + ((src[j] - 48) as u64);
            frac = frac + 1;
            j = j + 1;
        }
        proof {
            assert(sp_frac(src@, j as int, digits, frac) == Some((digits, frac, j as int)));
        }
        match decimal_to_bits(digits, frac) {
            Ok(bits) => {
                let signed = if negative {
                    bits | 0x8000_0000_0000_0000u64
                } else {
                    bits
                };
                Ok((Expr::Real(signed), j))
            },
            Err(_) => Err(()),
        }
    } else {
        if negative {
            if digits > 0x8000_0000_0000_0000u64 {
                return Err(());
            }
            if digits == 0x8000_0000_0000_0000u64 {
                return Ok((Expr::Int(i64::MIN), j));
            }
            proof {
                assert((0 - digits as int) as i64 == -(digits as i64));
            }
            Ok((Expr::Int(-((digits) as i64)), j))
        } else {
            if digits > 0x7fff_ffff_ffff_ffffu64 {
                return Err(());
            }
            Ok((Expr::Int(digits as i64), j))
        }
    }
}

/// Read a single-quoted string literal: the bytes stand for themselves and
/// there are no escapes.
#[verifier::loop_isolation(false)]
fn parse_string(src: &[u8], i: usize) -> (r: Result<(Vec<u8>, usize), ()>)
    requires
        i <= src@.len(),
    ensures
        r matches Ok(p) ==> i < p.1 <= src@.len(),
        match r {
            Ok(p) => sp_string(src@, i as int) == Some((p.0@, p.1 as int)),
            Err(_) => sp_string(src@, i as int) is None,
        },
{
    if i >= src.len() || src[i] != 39 {
        return Err(());
    }
    let mut j = i + 1;
    let mut bytes: Vec<u8> = Vec::new();
    while j < src.len() && src[j] != 39
        invariant
            i < j <= src@.len(),
            bytes@ =~= src@.subrange(i + 1, j as int),
            sp_str_end(src@, i + 1) == sp_str_end(src@, j as int),
        decreases src@.len() - j,
    {
        bytes.push(src[j]);
        j = j + 1;
        proof {
            assert(bytes@ =~= src@.subrange(i + 1, j as int));
        }
    }
    proof {
        assert(sp_str_end(src@, j as int) == j);
    }
    if j >= src.len() {
        return Err(());
    }
    Ok((bytes, j + 1))
}

/// Read a primary expression: a literal, a variable with its indexings, an
/// array or object literal, or a parenthesised expression.
#[verifier::loop_isolation(false)]
fn parse_primary(src: &[u8], i: usize) -> (r: Result<(Expr, usize), ()>)
    requires
        i <= src@.len(),
    ensures
        r matches Ok(p) ==> i < p.1 <= src@.len(),
        match r {
            Ok(p) => sp_primary(src@, i as int) == Some((expr_view(p.0), p.1 as int)),
            Err(_) => sp_primary(src@, i as int) is None,
        },
    decreases src@.len() - i, 1int,
{
    let j = skip_ws(src, i);
    if j >= src.len() {
        return Err(());
    }
    let b = src[j];
    if match_kw(src, j, &[110, 117, 108, 108]) {
        proof {
            assert(seq![110u8, 117u8, 108u8, 108u8] =~= [110u8, 117u8, 108u8, 108u8]@);
        }
        return Ok((Expr::Null, j + 4));
    }
    if match_kw(src, j, &[116, 114, 117, 101]) {
        proof {
            assert(seq![116u8, 114u8, 117u8, 101u8] =~= [116u8, 114u8, 117u8, 101u8]@);
            assert(seq![110u8, 117u8, 108u8, 108u8] =~= [110u8, 117u8, 108u8, 108u8]@);
        }
        return Ok((Expr::True, j + 4));
    }
    if match_kw(src, j, &[102, 97, 108, 115, 101]) {
        proof {
            assert(seq![102u8, 97u8, 108u8, 115u8, 101u8] =~= [102u8, 97u8, 108u8, 115u8, 101u8]@);
            assert(seq![110u8, 117u8, 108u8, 108u8] =~= [110u8, 117u8, 108u8, 108u8]@);
            assert(seq![116u8, 114u8, 117u8, 101u8] =~= [116u8, 114u8, 117u8, 101u8]@);
        }
        return Ok((Expr::False, j + 5));
    }
    proof {
        assert(seq![110u8, 117u8, 108u8, 108u8] =~= [110u8, 117u8, 108u8, 108u8]@);
        assert(seq![116u8, 114u8, 117u8, 101u8] =~= [116u8, 114u8, 117u8, 101u8]@);
        assert(seq![102u8, 97u8, 108u8, 115u8, 101u8] =~= [102u8, 97u8, 108u8, 115u8, 101u8]@);
    }
    if b == 45 || is_digit(b) {
        return parse_number(src, j);
    }
    if b == 39 {
        return match parse_string(src, j) {
            Ok((bytes, j2)) => Ok((Expr::Str(bytes), j2)),
            Err(_) => Err(()),
        };
    }
    if b == 36 {
        // a variable, possibly indexed
        let (name, j2) = match parse_ident(src, j + 1) {
            Ok(p) => p,
            Err(_) => {
                return Err(());
            },
        };
        let mut e = Expr::Var(name);
        let mut cur = j2;
        let ghost goal = sp_postfix(src@, j2 as int, expr_view(e));
        proof {
            assert(nxt(src@, i as int, j2 as int) == j2 as int);
            assert(sp_primary(src@, i as int) == goal);
        }
        loop
            invariant
                i < cur <= src@.len(),
                goal == sp_postfix(src@, cur as int, expr_view(e)),
                goal == sp_primary(src@, i as int),
            decreases src@.len() - cur,
        {
            let w = skip_ws(src, cur);
            if !(w < src.len() && src[w] == 91) {
                proof {
                    assert(goal == Some((expr_view(e), cur as int)));
                }
                return Ok((e, cur));
            }
            proof {
                assert(nxt(src@, cur as int, w + 1) == w + 1);
            }
            let (ix, j3) = match parse_expr(src, w + 1) {
                Ok(p) => p,
                Err(_) => {
                    return Err(());
                },
            };
            proof {
                assert(nxt(src@, cur as int, j3 as int) == j3 as int);
            }
            let j4 = skip_ws(src, j3);
            if j4 >= src.len() || src[j4] != 93 {
                return Err(());
            }
            proof {
                assert(nxt(src@, cur as int, j4 + 1) == j4 + 1);
            }
            e = Expr::Index(Box::new(e), Box::new(ix));
            cur = j4 + 1;
        }
    }
    if b == 91 {
        // an array literal
        let mut items: Vec<Expr> = Vec::new();
        let mut cur = j + 1;
        proof {
            assert(nxt(src@, i as int, j + 1) == j + 1);
        }
        let w0 = skip_ws(src, cur);
        if w0 < src.len() && src[w0] == 93 {
            proof {
                assert(exprs_view(items@) =~= Seq::<ExprS>::empty());
            }
            return Ok((Expr::Arr(items), w0 + 1));
        }
        let ghost goal = sp_arr_items(src@, (j + 1) as int, Seq::<ExprS>::empty());
        proof {
            assert(exprs_view(items@) =~= Seq::<ExprS>::empty());
            assert(sp_primary(src@, i as int) == goal);
        }
        loop
            invariant
                i < cur <= src@.len(),
                goal == sp_arr_items(src@, cur as int, exprs_view(items@)),
                goal == sp_primary(src@, i as int),
            decreases src@.len() - cur,
        {
            let (item, j2) = match parse_expr(src, cur) {
                Ok(p) => p,
                Err(_) => {
                    return Err(());
                },
            };
            let ghost prev = items@;
            items.push(item);
            proof {
                assert(items@.drop_last() =~= prev);
                assert(exprs_view(items@) =~= exprs_view(prev).push(expr_view(items@.last())));
                assert(nxt(src@, cur as int, j2 as int) == j2 as int);
            }
            let w = skip_ws(src, j2);
            if w < src.len() && src[w] == 44 {
                proof {
                    assert(nxt(src@, cur as int, w + 1) == w + 1);
                }
                cur = w + 1;
            } else if w < src.len() && src[w] == 93 {
                proof {
                    assert(goal == Some((ExprS::Arr(exprs_view(items@)), w + 1)));
                }
                return Ok((Expr::Arr(items), w + 1));
            } else {
                return Err(());
            }
        }
    }
    if b == 123 {
        // an object literal
        let mut pairs: Vec<(Vec<u8>, Expr)> = Vec::new();
        let mut cur = j + 1;
        proof {
            assert(nxt(src@, i as int, j + 1) == j + 1);
        }
        let w0 = skip_ws(src, cur);
        if w0 < src.len() && src[w0] == 125 {
            proof {
                assert(expr_pairs_view(pairs@) =~= Seq::<(Seq<u8>, ExprS)>::empty());
            }
            return Ok((Expr::Obj(pairs), w0 + 1));
        }
        let ghost goal = sp_obj_pairs(src@, (j + 1) as int, Seq::<(Seq<u8>, ExprS)>::empty());
        proof {
            assert(expr_pairs_view(pairs@) =~= Seq::<(Seq<u8>, ExprS)>::empty());
            assert(sp_primary(src@, i as int) == goal);
        }
        loop
            invariant
                i < cur <= src@.len(),
                goal == sp_obj_pairs(src@, cur as int, expr_pairs_view(pairs@)),
                goal == sp_primary(src@, i as int),
            decreases src@.len() - cur,
        {
            let w = skip_ws(src, cur);
            let (key, j2) = if w < src.len() && src[w] == 39 {
                match parse_string(src, w) {
                    Ok(p) => p,
                    Err(_) => {
                        return Err(());
                    },
                }
            } else {
                match parse_ident(src, w) {
                    Ok(p) => p,
                    Err(_) => {
                        return Err(());
                    },
                }
            };
            proof {
                assert(nxt(src@, cur as int, j2 as int) == j2 as int);
            }
            let w2 = skip_ws(src, j2);
            if w2 >= src.len() || src[w2] != 58 {
                return Err(());
            }
            proof {
                assert(nxt(src@, cur as int, w2 + 1) == w2 + 1);
            }
            let (value, j3) = match parse_expr(src, w2 + 1) {
                Ok(p) => p,
                Err(_) => {
                    return Err(());
                },
            };
            let ghost prev = pairs@;
            pairs.push((key, value));
            proof {
                assert(pairs@.drop_last() =~= prev);
                assert(expr_pairs_view(pairs@) =~= expr_pairs_view(prev).push(
                    (pairs@.last().0@, expr_view(pairs@.last().1)),
                ));
                assert(nxt(src@, cur as int, j3 as int) == j3 as int);
            }
            let w3 = skip_ws(src, j3);
            if w3 < src.len() && src[w3] == 44 {
                proof {
                    assert(nxt(src@, cur as int, w3 + 1) == w3 + 1);
                }
                cur = w3 + 1;
            } else if w3 < src.len() && src[w3] == 125 {
                proof {
                    assert(goal == Some((ExprS::Obj(expr_pairs_view(pairs@)), w3 + 1)));
                }
                return Ok((Expr::Obj(pairs), w3 + 1));
            } else {
                return Err(());
            }
        }
    }
    if b == 40 {
        // a parenthesised expression
        proof {
            assert(nxt(src@, i as int, j + 1) == j + 1);
        }
        let (e, j2) = match parse_expr(src, j + 1) {
            Ok(p) => p,
            Err(_) => {
                return Err(());
            },
        };
        proof {
            assert(nxt(src@, i as int, j2 as int) == j2 as int);
        }
        let w = skip_ws(src, j2);
        if w >= src.len() || src[w] != 41 {
            return Err(());
        }
        return Ok((e, w + 1));
    }
    Err(())
}

/// Read a chain of `+` and `..` operations, left associative.
#[verifier::loop_isolation(false)]
fn parse_add(src: &[u8], i: usize) -> (r: Result<(Expr, usize), ()>)
    requires
        i <= src@.len(),
    ensures
        r matches Ok(p) ==> i < p.1 <= src@.len(),
        match r {
            Ok(p) => sp_add(src@, i as int) == Some((expr_view(p.0), p.1 as int)),
            Err(_) => sp_add(src@, i as int) is None,
        },
    decreases src@.len() - i, 2int,
{
    let (first, j) = match parse_primary(src, i) {
        Ok(p) => p,
        Err(_) => {
            return Err(());
        },
    };
    let mut e = first;
    let mut cur = j;
    let ghost goal = sp_addchain(src@, j as int, expr_view(e));
    proof {
        assert(nxt(src@, i as int, j as int) == j as int);
        assert(sp_add(src@, i as int) == goal);
    }
    loop
        invariant
            i < cur <= src@.len(),
            goal == sp_addchain(src@, cur as int, expr_view(e)),
            goal == sp_add(src@, i as int),
        decreases src@.len() - cur,
    {
        let w = skip_ws(src, cur);
        if w < src.len() && src[w] == 43 {
            proof {
                assert(nxt(src@, cur as int, w + 1) == w + 1);
            }
            let (rhs, j2) = match parse_primary(src, w + 1) {
                Ok(p) => p,
                Err(_) => {
                    return Err(());
                },
            };
            proof {
                assert(nxt(src@, cur as int, j2 as int) == j2 as int);
            }
            e = Expr::Plus(Box::new(e), Box::new(rhs));
            cur = j2;
        } else if w < src.len() && src[w] == 46 && w + 1 < src.len() && src[w + 1] == 46 {
            proof {
                assert(nxt(src@, cur as int, w + 2) == w + 2);
            }
            let (rhs, j2) = match parse_primary(src, w + 2) {
                Ok(p) => p,
                Err(_) => {
                    return Err(());
                },
            };
            proof {
                assert(nxt(src@, cur as int, j2 as int) == j2 as int);
            }
            e = Expr::Cat(Box::new(e), Box::new(rhs));
            cur = j2;
        } else {
            proof {
                assert(goal == Some((expr_view(e), cur as int)));
            }
            return Ok((e, cur));
        }
    }
}

/// Read a comparison, or a plain additive chain.
#[verifier::loop_isolation(false)]
fn parse_expr(src: &[u8], i: usize) -> (r: Result<(Expr, usize), ()>)
    requires
        i <= src@.len(),
    ensures
        r matches Ok(p) ==> i < p.1 <= src@.len(),
        match r {
            Ok(p) => sp_expr(src@, i as int) == Some((expr_view(p.0), p.1 as int)),
            Err(_) => sp_expr(src@, i as int) is None,
        },
    decreases src@.len() - i, 3int,
{
    let (lhs, j) = match parse_add(src, i) {
        Ok(p) => p,
        Err(_) => {
            return Err(());
        },
    };
    proof {
        assert(nxt(src@, i as int, j as int) == j as int);
    }
    let w = skip_ws(src, j);
    if w < src.len() && src[w] == 62 && w + 1 < src.len() && src[w + 1] == 61 {
        // >=
        proof {
            assert(nxt(src@, i as int, w + 2) == w + 2);
        }
        let (rhs, j2) = match parse_add(src, w + 2) {
            Ok(p) => p,
            Err(_) => {
                return Err(());
            },
        };
        return Ok((Expr::Cmp(CmpOp::Ge, Box::new(lhs), Box::new(rhs)), j2));
    }
    if w < src.len() && src[w] == 60 && w + 1 < src.len() && src[w + 1] == 61 {
        // <=
        proof {
            assert(nxt(src@, i as int, w + 2) == w + 2);
        }
        let (rhs, j2) = match parse_add(src, w + 2) {
            Ok(p) => p,
            Err(_) => {
                return Err(());
            },
        };
        return Ok((Expr::Cmp(CmpOp::Le, Box::new(lhs), Box::new(rhs)), j2));
    }
    if w < src.len() && src[w] == 61 && w + 1 < src.len() && src[w + 1] == 61 {
        // ==
        proof {
            assert(nxt(src@, i as int, w + 2) == w + 2);
        }
        let (rhs, j2) = match parse_add(src, w + 2) {
            Ok(p) => p,
            Err(_) => {
                return Err(());
            },
        };
        return Ok((Expr::Cmp(CmpOp::EqEq, Box::new(lhs), Box::new(rhs)), j2));
    }
    if w < src.len() && src[w] == 33 && w + 1 < src.len() && src[w + 1] == 61 {
        // !=
        proof {
            assert(nxt(src@, i as int, w + 2) == w + 2);
        }
        let (rhs, j2) = match parse_add(src, w + 2) {
            Ok(p) => p,
            Err(_) => {
                return Err(());
            },
        };
        return Ok((Expr::Cmp(CmpOp::Ne, Box::new(lhs), Box::new(rhs)), j2));
    }
    if w < src.len() && src[w] == 62 {
        // >
        proof {
            assert(nxt(src@, i as int, w + 1) == w + 1);
        }
        let (rhs, j2) = match parse_add(src, w + 1) {
            Ok(p) => p,
            Err(_) => {
                return Err(());
            },
        };
        return Ok((Expr::Cmp(CmpOp::Gt, Box::new(lhs), Box::new(rhs)), j2));
    }
    if w < src.len() && src[w] == 60 {
        // <
        proof {
            assert(nxt(src@, i as int, w + 1) == w + 1);
        }
        let (rhs, j2) = match parse_add(src, w + 1) {
            Ok(p) => p,
            Err(_) => {
                return Err(());
            },
        };
        return Ok((Expr::Cmp(CmpOp::Lt, Box::new(lhs), Box::new(rhs)), j2));
    }
    Ok((lhs, j))
}

/// Read one statement.
#[verifier::loop_isolation(false)]
#[verifier::rlimit(100)]
#[verifier::spinoff_prover]
fn parse_stmt(src: &[u8], i: usize) -> (r: Result<(Stmt, usize), ()>)
    requires
        i <= src@.len(),
    ensures
        r matches Ok(p) ==> i < p.1 <= src@.len(),
        match r {
            Ok(p) => sp_stmt(src@, i as int) == Some((stmt_view(p.0), p.1 as int)),
            Err(_) => sp_stmt(src@, i as int) is None,
        },
    decreases src@.len() - i, 5int,
{
    let n = src.len();
    let j = skip_ws(src, i);
    proof {
        assert(seq![112u8, 114u8, 105u8, 110u8, 116u8] =~= [112u8, 114u8, 105u8, 110u8, 116u8]@);
        assert(seq![114u8, 101u8, 116u8, 117u8, 114u8, 110u8] =~= [114u8, 101u8, 116u8, 117u8,
            114u8, 110u8]@);
        assert(seq![105u8, 102u8] =~= [105u8, 102u8]@);
    }
    if match_kw(src, j, &[112, 114, 105, 110, 116]) {
        // print
        proof {
            assert(nxt(src@, i as int, j + 5) == j + 5);
        }
        let (e, j2) = match parse_expr(src, j + 5) {
            Ok(p) => p,
            Err(_) => {
                return Err(());
            },
        };
        proof {
            assert(nxt(src@, i as int, j2 as int) == j2 as int);
        }
        let w = skip_ws(src, j2);
        if w >= n || src[w] != 59 {
            return Err(());
        }
        return Ok((Stmt::Print(e), w + 1));
    }
    if match_kw(src, j, &[114, 101, 116, 117, 114, 110]) {
        // return
        proof {
            assert(nxt(src@, i as int, j + 6) == j + 6);
        }
        let (e, j2) = match parse_expr(src, j + 6) {
            Ok(p) => p,
            Err(_) => {
                return Err(());
            },
        };
        proof {
            assert(nxt(src@, i as int, j2 as int) == j2 as int);
        }
        let w = skip_ws(src, j2);
        if w >= n || src[w] != 59 {
            return Err(());
        }
        return Ok((Stmt::Ret(e), w + 1));
    }
    if match_kw(src, j, &[105, 102]) {
        // if (cond) block, with an optional else block
        return parse_if_tail(src, i, j);
    }
    if j < n && src[j] == 36 {
        // $name = expr;
        return parse_assign_tail(src, i, j);
    }
    Err(())
}

/// Read the rest of a branching statement, after its keyword was seen at
/// `j`, the first position past the whitespace at `i`.
#[verifier::loop_isolation(false)]
fn parse_if_tail(src: &[u8], i: usize, j: usize) -> (r: Result<(Stmt, usize), ()>)
    requires
        i <= src@.len(),
        j == sp_ws(src@, i as int),
        i <= j <= src@.len(),
        !sp_kw(src@, j as int, seq![112u8, 114u8, 105u8, 110u8, 116u8]),
        !sp_kw(src@, j as int, seq![114u8, 101u8, 116u8, 117u8, 114u8, 110u8]),
        sp_kw(src@, j as int, seq![105u8, 102u8]),
    ensures
        r matches Ok(p) ==> i < p.1 <= src@.len(),
        match r {
            Ok(p) => sp_stmt(src@, i as int) == Some((stmt_view(p.0), p.1 as int)),
            Err(_) => sp_stmt(src@, i as int) is None,
        },
    decreases src@.len() - i, 4int,
{
    let n = src.len();
    proof {
        assert(seq![101u8, 108u8, 115u8, 101u8] =~= [101u8, 108u8, 115u8, 101u8]@);
        assert(nxt(src@, i as int, j + 2) == j + 2);
    }
    let w = skip_ws(src, j + 2);
    if w >= n || src[w] != 40 {
        return Err(());
    }
    proof {
        assert(nxt(src@, i as int, w + 1) == w + 1);
    }
    let (cond, j2) = match parse_expr(src, w + 1) {
        Ok(p) => p,
        Err(_) => {
            return Err(());
        },
    };
    proof {
        assert(nxt(src@, i as int, j2 as int) == j2 as int);
    }
    let w2 = skip_ws(src, j2);
    if w2 >= n || src[w2] != 41 {
        return Err(());
    }
    proof {
        assert(nxt(src@, i as int, w2 + 1) == w2 + 1);
    }
    let (then_branch, j3) = match parse_block(src, w2 + 1) {
        Ok(p) => p,
        Err(_) => {
            return Err(());
        },
    };
    proof {
        assert(nxt(src@, i as int, j3 as int) == j3 as int);
    }
    let w3 = skip_ws(src, j3);
    if match_kw(src, w3, &[101, 108, 115, 101]) {
        proof {
            assert(nxt(src@, i as int, w3 + 4) == w3 + 4);
        }
        let (else_branch, j4) = match parse_block(src, w3 + 4) {
            Ok(p) => p,
            Err(_) => {
                return Err(());
            },
        };
        return Ok((Stmt::If(cond, then_branch, else_branch), j4));
    }
    let empty_branch: Vec<Stmt> = Vec::new();
    proof {
        assert(stmts_view(empty_branch@) =~= Seq::<StmtS>::empty());
    }
    Ok((Stmt::If(cond, then_branch, empty_branch), j3))
}

/// Read the rest of an assignment, after its variable marker was seen at
/// `j`, the first position past the whitespace at `i`.
#[verifier::loop_isolation(false)]
fn parse_assign_tail(src: &[u8], i: usize, j: usize) -> (r: Result<(Stmt, usize), ()>)
    requires
        i <= src@.len(),
        j == sp_ws(src@, i as int),
        i <= j < src@.len(),
        src@[j as int] == 36,
        !sp_kw(src@, j as int, seq![112u8, 114u8, 105u8, 110u8, 116u8]),
        !sp_kw(src@, j as int, seq![114u8, 101u8, 116u8, 117u8, 114u8, 110u8]),
        !sp_kw(src@, j as int, seq![105u8, 102u8]),
    ensures
        r matches Ok(p) ==> i < p.1 <= src@.len(),
        match r {
            Ok(p) => sp_stmt(src@, i as int) == Some((stmt_view(p.0), p.1 as int)),
            Err(_) => sp_stmt(src@, i as int) is None,
        },
    decreases src@.len() - i, 4int,
{
    let n = src.len();
    proof {
        assert(nxt(src@, i as int, j + 1) == j + 1);
    }
    let (name, j2) = match parse_ident(src, j + 1) {
        Ok(p) => p,
        Err(_) => {
            return Err(());
        },
    };
    proof {
        assert(nxt(src@, i as int, j2 as int) == j2 as int);
    }
    let w = skip_ws(src, j2);
    if w >= n || src[w] != 61 {
        return Err(());
    }
    proof {
        assert(nxt(src@, i as int, w + 1) == w + 1);
    }
    let (e, j3) = match parse_expr(src, w + 1) {
        Ok(p) => p,
        Err(_) => {
            return Err(());
        },
    };
    proof {
        assert(nxt(src@, i as int, j3 as int) == j3 as int);
    }
    let w2 = skip_ws(src, j3);
    if w2 >= n || src[w2] != 59 {
        return Err(());
    }
    Ok((Stmt::Assign(name, e), w2 + 1))
}

/// Read a braced block of statements.
#[verifier::loop_isolation(false)]
#[verifier::rlimit(60)]
fn parse_block(src: &[u8], i: usize) -> (r: Result<(Vec<Stmt>, usize), ()>)
    requires
        i <= src@.len(),
    ensures
        r matches Ok(p) ==> i < p.1 <= src@.len(),
        match r {
            Ok(p) => sp_block(src@, i as int) == Some((stmts_view(p.0@), p.1 as int)),
            Err(_) => sp_block(src@, i as int) is None,
        },
    decreases src@.len() - i, 7int,
{
    let j = skip_ws(src, i);
    if j >= src.len() || src[j] != 123 {
        return Err(());
    }
    let mut stmts: Vec<Stmt> = Vec::new();
    let mut cur = j + 1;
    let ghost goal = sp_block_items(src@, (j + 1) as int, Seq::<StmtS>::empty());
    proof {
        assert(nxt(src@, i as int, j + 1) == j + 1);
        assert(stmts_view(stmts@) =~= Seq::<StmtS>::empty());
        assert(sp_block(src@, i as int) == goal);
    }
    loop
        invariant
            i < cur <= src@.len(),
            goal == sp_block_items(src@, cur as int, stmts_view(stmts@)),
            goal == sp_block(src@, i as int),
        decreases src@.len() - cur,
    {
        let w = skip_ws(src, cur);
        if w < src.len() && src[w] == 125 {
            proof {
                assert(goal == Some((stmts_view(stmts@), w + 1)));
            }
            return Ok((stmts, w + 1));
        }
        let (s, j2) = match parse_stmt(src, cur) {
            Ok(p) => p,
            Err(_) => {
                return Err(());
            },
        };
        let ghost prev = stmts@;
        stmts.push(s);
        proof {
            assert(stmts@.drop_last() =~= prev);
            assert(stmts_view(stmts@) =~= stmts_view(prev).push(stmt_view(stmts@.last())));
            assert(nxt(src@, cur as int, j2 as int) == j2 as int);
        }
        cur = j2;
    }
}

/// Compile script source into a program, or report that it is not in the
/// accepted grammar: success exactly when the ghost reading accepts the
/// source, with the program it denotes.
#[verifier::loop_isolation(false)]
pub fn parse_program(src: &[u8]) -> (r: Result<Program, ()>)
    ensures
        match r {
            Ok(p) => sp_program(src@) == Some(stmts_view(p.stmts@)),
            Err(_) => sp_program(src@) is None,
        },
{
    let mut stmts: Vec<Stmt> = Vec::new();
    let mut cur: usize = 0;
    let ghost goal = sp_program(src@);
    proof {
        assert(stmts_view(stmts@) =~= Seq::<StmtS>::empty());
    }
    loop
        invariant
            cur <= src@.len(),
            goal == sp_prog_items(src@, cur as int, stmts_view(stmts@)),
        decreases src@.len() - cur,
    {
        let w = skip_ws(src, cur);
        if w >= src.len() {
            proof {
                assert(goal == Some(stmts_view(stmts@)));
            }
            return Ok(Program { stmts });
        }
        let (s, j) = match parse_stmt(src, cur) {
            Ok(p) => p,
            Err(_) => {
                return Err(());
            },
        };
        let ghost prev = stmts@;
        stmts.push(s);
        proof {
            assert(stmts@.drop_last() =~= prev);
            assert(stmts_view(stmts@) =~= stmts_view(prev).push(stmt_view(stmts@.last())));
            assert(nxt(src@, cur as int, j as int) == j as int);
        }
        cur = j;
    }
}

} // verus!

// The ghost reading of the grammar: the same decisions as the functions
// above, over ghost sequences, so the compiler's contract can say which
// program a given source denotes.

verus! {

/// A space, tab, carriage return or line feed.
pub open spec fn sp_space(b: u8) -> bool {
    b == 32 || b == 9 || b == 13 || b == 10
}

/// A decimal digit.
pub open spec fn sp_digit(b: u8) -> bool {
    48 <= b <= 57
}

/// A letter or underscore.
pub open spec fn sp_alpha(b: u8) -> bool {
    (97 <= b <= 122) || (65 <= b <= 90) || b == 95
}

/// A byte that may continue a name.
pub open spec fn sp_word(b: u8) -> bool {
    sp_alpha(b) || sp_digit(b)
}

/// The position after the whitespace at `i`.
pub open spec fn sp_ws(src: Seq<u8>, i: int) -> int
    decreases src.len() - i,
        when 0 <= i <= src.len()
{
    if i < src.len() && sp_space(src[i]) {
        sp_ws(src, i + 1)
    } else {
        i
    }
}

/// The keyword stands at `i`, not run into by a longer name.
pub open spec fn sp_kw(src: Seq<u8>, i: int, kw: Seq<u8>) -> bool {
    &&& 0 <= i
    &&& i + kw.len() <= src.len()
    &&& src.subrange(i, i + kw.len()) == kw
    &&& (i + kw.len() == src.len() || !sp_word(src[i + kw.len()]))
}

/// The position after the name characters at `i`.
pub open spec fn sp_ident_end(src: Seq<u8>, i: int) -> int
    decreases src.len() - i,
        when 0 <= i <= src.len()
{
    if i < src.len() && sp_word(src[i]) {
        sp_ident_end(src, i + 1)
    } else {
        i
    }
}

/// The name at `i`: a letter or underscore, then letters, digits and
/// underscores.
pub open spec fn sp_ident(src: Seq<u8>, i: int) -> Option<(Seq<u8>, int)> {
    if 0 <= i < src.len() && sp_alpha(src[i]) {
        Some((src.subrange(i, sp_ident_end(src, i)), sp_ident_end(src, i)))
    } else {
        None
    }
}

/// The position of the closing quote at or after `i`.
pub open spec fn sp_str_end(src: Seq<u8>, i: int) -> int
    decreases src.len() - i,
        when 0 <= i <= src.len()
{
    if i < src.len() && src[i] != 39 {
        sp_str_end(src, i + 1)
    } else {
        i
    }
}

/// The single-quoted string literal at `i`: verbatim bytes, no escapes.
pub open spec fn sp_string(src: Seq<u8>, i: int) -> Option<(Seq<u8>, int)> {
    if 0 <= i < src.len() && src[i] == 39 {
        if sp_str_end(src, i + 1) < src.len() {
            Some((src.subrange(i + 1, sp_str_end(src, i + 1)), sp_str_end(src, i + 1) + 1))
        } else {
            None
        }
    } else {
        None
    }
}

/// The digit run at `i` folded onto `acc`, rejected when the number would
/// outgrow the machine's numbers.
pub open spec fn sp_digits(src: Seq<u8>, i: int, acc: u64) -> Option<(u64, int)>
    decreases src.len() - i,
        when 0 <= i <= src.len()
{
    if i < src.len() && sp_digit(src[i]) {
        if acc >= 0x0de0_b6b3_a764_0000u64 {
            None
        } else {
            sp_digits(src, i + 1, (acc * 10 + (src[i] - 48)) as u64)
        }
    } else {
        Some((acc, i))
    }
}

/// Ten to the given power.
pub open spec fn pow10(k: int) -> int
    decreases k,
{
    if k <= 0 {
        1
    } else {
        10 * pow10(k - 1)
    }
}

/// The numerator doubled until the quotient reaches two to the 52nd.
pub open spec fn sp_scale_num(num: int, den: int, e: int) -> (int, int)
    decreases e + 1100,
        when e >= -1100
{
    if e > -1100 && num < den * 0x10_0000_0000_0000 {
        sp_scale_num(num * 2, den, e - 1)
    } else {
        (num, e)
    }
}

/// The denominator doubled until the quotient drops below two to the 53rd.
pub open spec fn sp_scale_den(num: int, den: int, e: int) -> (int, int)
    decreases 1100 - e,
        when e <= 1100
{
    if e < 1100 && num >= den * 0x20_0000_0000_0000 {
        sp_scale_den(num, den * 2, e + 1)
    } else {
        (den, e)
    }
}

/// The bits of the 64-bit floating-point value nearest to `n / 10^k`, ties
/// to even: the exact rational is scaled into the 53-bit quotient range,
/// rounded, and packed, or rejected when it leaves the representable
/// exponents.
pub open spec fn sp_dec_bits(n: int, k: int) -> Option<u64> {
    if n == 0 {
        Some(0u64)
    } else {
        let den0 = pow10(k);
        let sn = sp_scale_num(n, den0, 52);
        if sn.1 <= -1100 {
            None
        } else {
            let sd = sp_scale_den(sn.0, den0, sn.1);
            if sd.1 >= 1100 {
                None
            } else {
                let q0 = sn.0 / sd.0;
                let rem = sn.0 % sd.0;
                if q0 < 0x10_0000_0000_0000 || q0 > 0x20_0000_0000_0000 {
                    None
                } else {
                    let rounded = if rem > sd.0 - rem || (rem == sd.0 - rem && q0 % 2 == 1) {
                        if q0 + 1 == 0x20_0000_0000_0000 {
                            (0x10_0000_0000_0000int, sd.1 + 1)
                        } else {
                            (q0 + 1, sd.1)
                        }
                    } else {
                        (q0, sd.1)
                    };
                    if rounded.0 >= 0x20_0000_0000_0000 {
                        None
                    } else {
                        let ef = rounded.1 + 1023;
                        if ef <= 0 || ef >= 2047 {
                            None
                        } else {
                            Some(
                                (((ef as u64) << 52u32) | ((rounded.0 as u64) % (
                                0x10_0000_0000_0000u64))) as u64,
                            )
                        }
                    }
                }
            }
        }
    }
}

/// The number literal at `i`, integer or real, with an optional leading
/// minus.
pub open spec fn sp_number(src: Seq<u8>, i: int) -> Option<(ExprS, int)> {
    let neg = 0 <= i < src.len() && src[i] == 45;
    let d0 = if neg {
        i + 1
    } else {
        i
    };
    if !(0 <= d0 < src.len() && sp_digit(src[d0])) {
        None
    } else {
        match sp_digits(src, d0 + 1, (src[d0] - 48) as u64) {
            Some((digits, j)) => {
                if j < src.len() && src[j] == 46 && j + 1 < src.len() && sp_digit(src[j + 1]) {
                    match sp_frac(src, j + 1, digits, 0) {
                        Some((all, frac, j2)) => {
                            match sp_dec_bits(all as int, frac as int) {
                                Some(bits) => Some(
                                    (
                                        ExprS::Real(
                                            if neg {
                                                bits | 0x8000_0000_0000_0000u64
                                            } else {
                                                bits
                                            },
                                        ),
                                        j2,
                                    ),
                                ),
                                None => None,
                            }
                        },
                        None => None,
                    }
                } else {
                    if neg {
                        if digits > 0x8000_0000_0000_0000u64 {
                            None
                        } else if digits == 0x8000_0000_0000_0000u64 {
                            Some((ExprS::Int(i64::MIN), j))
                        } else {
                            Some((ExprS::Int((0 - digits as int) as i64), j))
                        }
                    } else {
                        if digits > 0x7fff_ffff_ffff_ffffu64 {
                            None
                        } else {
                            Some((ExprS::Int(digits as i64), j))
                        }
                    }
                }
            },
            None => None,
        }
    }
}

/// The fractional digit run at `i`: digits folded onto `acc` with their
/// count, rejected past nineteen places or when the number would outgrow
/// the machine's numbers.
pub open spec fn sp_frac(src: Seq<u8>, i: int, acc: u64, frac: u32) -> Option<(u64, u32, int)>
    decreases src.len() - i,
        when 0 <= i <= src.len()
{
    if i < src.len() && sp_digit(src[i]) {
        if acc >= 0x0de0_b6b3_a764_0000u64 || frac >= 19 {
            None
        } else {
            sp_frac(src, i + 1, (acc * 10 + (src[i] - 48)) as u64, (frac + 1) as u32)
        }
    } else {
        Some((acc, frac, i))
    }
}

/// The next reading position: `j` when it lies properly past `i` and in
/// bounds — as it always does where the functions below use it — clamped
/// otherwise so the readings are well defined everywhere.
pub open spec fn nxt(src: Seq<u8>, i: int, j: int) -> int {
    if i < j <= src.len() {
        j
    } else if i + 1 <= src.len() {
        i + 1
    } else {
        src.len() as int
    }
}

/// The primary expression at `i`: a literal, a variable with its
/// indexings, an array or object literal, or a parenthesised expression.
pub open spec fn sp_primary(src: Seq<u8>, i: int) -> Option<(ExprS, int)>
    decreases src.len() - i, 1int,
        when 0 <= i <= src.len()
{
    let j = sp_ws(src, i);
    if !(0 <= j < src.len()) {
        None
    } else {
        let b = src[j];
        if sp_kw(src, j, seq![110u8, 117u8, 108u8, 108u8]) {
            Some((ExprS::Null, j + 4))
        } else if sp_kw(src, j, seq![116u8, 114u8, 117u8, 101u8]) {
            Some((ExprS::True, j + 4))
        } else if sp_kw(src, j, seq![102u8, 97u8, 108u8, 115u8, 101u8]) {
            Some((ExprS::False, j + 5))
        } else if b == 45 || sp_digit(b) {
            sp_number(src, j)
        } else if b == 39 {
            match sp_string(src, j) {
                Some((bytes, j2)) => Some((ExprS::Str(bytes), j2)),
                None => None,
            }
        } else if b == 36 {
            match sp_ident(src, j + 1) {
                Some((name, j2)) => sp_postfix(src, nxt(src, i, j2), ExprS::Var(name)),
                None => None,
            }
        } else if b == 91 {
            let w0 = sp_ws(src, nxt(src, i, j + 1));
            if w0 < src.len() && src[w0] == 93 {
                Some((ExprS::Arr(Seq::<ExprS>::empty()), w0 + 1))
            } else {
                sp_arr_items(src, nxt(src, i, j + 1), Seq::<ExprS>::empty())
            }
        } else if b == 123 {
            let w0 = sp_ws(src, nxt(src, i, j + 1));
            if w0 < src.len() && src[w0] == 125 {
                Some((ExprS::Obj(Seq::<(Seq<u8>, ExprS)>::empty()), w0 + 1))
            } else {
                sp_obj_pairs(src, nxt(src, i, j + 1), Seq::<(Seq<u8>, ExprS)>::empty())
            }
        } else if b == 40 {
            match sp_expr(src, nxt(src, i, j + 1)) {
                Some((e, j2)) => {
                    let w = sp_ws(src, nxt(src, i, j2));
                    if w < src.len() && src[w] == 41 {
                        Some((e, w + 1))
                    } else {
                        None
                    }
                },
                None => None,
            }
        } else {
            None
        }
    }
}

/// The chain of indexings after a variable.
pub open spec fn sp_postfix(src: Seq<u8>, i: int, acc: ExprS) -> Option<(ExprS, int)>
    decreases src.len() - i, 0int,
        when 0 <= i <= src.len()
{
    let w = sp_ws(src, i);
    if w < src.len() && src[w] == 91 {
        match sp_expr(src, nxt(src, i, w + 1)) {
            Some((ix, j3)) => {
                let j4 = sp_ws(src, nxt(src, i, j3));
                if j4 < src.len() && src[j4] == 93 {
                    sp_postfix(src, nxt(src, i, j4 + 1), ExprS::Index(Box::new(acc), Box::new(ix)))
                } else {
                    None
                }
            },
            None => None,
        }
    } else {
        Some((acc, i))
    }
}

/// The elements of an array literal after the first position.
pub open spec fn sp_arr_items(src: Seq<u8>, i: int, acc: Seq<ExprS>) -> Option<(ExprS, int)>
    decreases src.len() - i, 4int,
        when 0 <= i <= src.len()
{
    match sp_expr(src, i) {
        Some((item, j2)) => {
            let w = sp_ws(src, nxt(src, i, j2));
            if w < src.len() && src[w] == 44 {
                sp_arr_items(src, nxt(src, i, w + 1), acc.push(item))
            } else if w < src.len() && src[w] == 93 {
                Some((ExprS::Arr(acc.push(item)), w + 1))
            } else {
                None
            }
        },
        None => None,
    }
}

/// The pairs of an object literal after the first position.
pub open spec fn sp_obj_pairs(src: Seq<u8>, i: int, acc: Seq<(Seq<u8>, ExprS)>) -> Option<
    (ExprS, int),
>
    decreases src.len() - i, 4int,
        when 0 <= i <= src.len()
{
    let w = sp_ws(src, i);
    let key = if w < src.len() && src[w] == 39 {
        sp_string(src, w)
    } else {
        sp_ident(src, w)
    };
    match key {
        Some((name, j2)) => {
            let w2 = sp_ws(src, nxt(src, i, j2));
            if w2 < src.len() && src[w2] == 58 {
                match sp_expr(src, nxt(src, i, w2 + 1)) {
                    Some((value, j3)) => {
                        let w3 = sp_ws(src, nxt(src, i, j3));
                        if w3 < src.len() && src[w3] == 44 {
                            sp_obj_pairs(src, nxt(src, i, w3 + 1), acc.push((name, value)))
                        } else if w3 < src.len() && src[w3] == 125 {
                            Some((ExprS::Obj(acc.push((name, value))), w3 + 1))
                        } else {
                            None
                        }
                    },
                    None => None,
                }
            } else {
                None
            }
        },
        None => None,
    }
}

/// The chain of `+` and `..` operations after a primary expression.
pub open spec fn sp_addchain(src: Seq<u8>, i: int, acc: ExprS) -> Option<(ExprS, int)>
    decreases src.len() - i, 0int,
        when 0 <= i <= src.len()
{
    let w = sp_ws(src, i);
    if w < src.len() && src[w] == 43 {
        match sp_primary(src, nxt(src, i, w + 1)) {
            Some((rhs, j2)) => sp_addchain(
                src,
                nxt(src, i, j2),
                ExprS::Plus(Box::new(acc), Box::new(rhs)),
            ),
            None => None,
        }
    } else if w < src.len() && src[w] == 46 && w + 1 < src.len() && src[w + 1] == 46 {
        match sp_primary(src, nxt(src, i, w + 2)) {
            Some((rhs, j2)) => sp_addchain(
                src,
                nxt(src, i, j2),
                ExprS::Cat(Box::new(acc), Box::new(rhs)),
            ),
            None => None,
        }
    } else {
        Some((acc, i))
    }
}

/// The additive chain at `i`, left associative.
pub open spec fn sp_add(src: Seq<u8>, i: int) -> Option<(ExprS, int)>
    decreases src.len() - i, 2int,
        when 0 <= i <= src.len()
{
    match sp_primary(src, i) {
        Some((first, j)) => sp_addchain(src, nxt(src, i, j), first),
        None => None,
    }
}

/// The expression at `i`: a comparison, or a plain additive chain.
pub open spec fn sp_expr(src: Seq<u8>, i: int) -> Option<(ExprS, int)>
    decreases src.len() - i, 3int,
        when 0 <= i <= src.len()
{
    match sp_add(src, i) {
        Some((lhs, j)) => {
            let w = sp_ws(src, nxt(src, i, j));
            if w < src.len() && src[w] == 62 && w + 1 < src.len() && src[w + 1] == 61 {
                match sp_add(src, nxt(src, i, w + 2)) {
                    Some((rhs, j2)) => Some(
                        (ExprS::Cmp(CmpOp::Ge, Box::new(lhs), Box::new(rhs)), j2),
                    ),
                    None => None,
                }
            } else if w < src.len() && src[w] == 60 && w + 1 < src.len() && src[w + 1] == 61 {
                match sp_add(src, nxt(src, i, w + 2)) {
                    Some((rhs, j2)) => Some(
                        (ExprS::Cmp(CmpOp::Le, Box::new(lhs), Box::new(rhs)), j2),
                    ),
                    None => None,
                }
            } else if w < src.len() && src[w] == 61 && w + 1 < src.len() && src[w + 1] == 61 {
                match sp_add(src, nxt(src, i, w + 2)) {
                    Some((rhs, j2)) => Some(
                        (ExprS::Cmp(CmpOp::EqEq, Box::new(lhs), Box::new(rhs)), j2),
                    ),
                    None => None,
                }
            } else if w < src.len() && src[w] == 33 && w + 1 < src.len() && src[w + 1] == 61 {
                match sp_add(src, nxt(src, i, w + 2)) {
                    Some((rhs, j2)) => Some(
                        (ExprS::Cmp(CmpOp::Ne, Box::new(lhs), Box::new(rhs)), j2),
                    ),
                    None => None,
                }
            } else if w < src.len() && src[w] == 62 {
                match sp_add(src, nxt(src, i, w + 1)) {
                    Some((rhs, j2)) => Some(
                        (ExprS::Cmp(CmpOp::Gt, Box::new(lhs), Box::new(rhs)), j2),
                    ),
                    None => None,
                }
            } else if w < src.len() && src[w] == 60 {
                match sp_add(src, nxt(src, i, w + 1)) {
                    Some((rhs, j2)) => Some(
                        (ExprS::Cmp(CmpOp::Lt, Box::new(lhs), Box::new(rhs)), j2),
                    ),
                    None => None,
                }
            } else {
                Some((lhs, j))
            }
        },
        None => None,
    }
}

/// The statement at `i`.
pub open spec fn sp_stmt(src: Seq<u8>, i: int) -> Option<(StmtS, int)>
    decreases src.len() - i, 5int,
        when 0 <= i <= src.len()
{
    let j = sp_ws(src, i);
    if sp_kw(src, j, seq![112u8, 114u8, 105u8, 110u8, 116u8]) {
        match sp_expr(src, nxt(src, i, j + 5)) {
            Some((e, j2)) => {
                let w = sp_ws(src, nxt(src, i, j2));
                if w < src.len() && src[w] == 59 {
                    Some((StmtS::Print(e), w + 1))
                } else {
                    None
                }
            },
            None => None,
        }
    } else if sp_kw(src, j, seq![114u8, 101u8, 116u8, 117u8, 114u8, 110u8]) {
        match sp_expr(src, nxt(src, i, j + 6)) {
            Some((e, j2)) => {
                let w = sp_ws(src, nxt(src, i, j2));
                if w < src.len() && src[w] == 59 {
                    Some((StmtS::Ret(e), w + 1))
                } else {
                    None
                }
            },
            None => None,
        }
    } else if sp_kw(src, j, seq![105u8, 102u8]) {
        let w = sp_ws(src, nxt(src, i, j + 2));
        if !(w < src.len() && src[w] == 40) {
            None
        } else {
            match sp_expr(src, nxt(src, i, w + 1)) {
                Some((cond, j2)) => {
                    let w2 = sp_ws(src, nxt(src, i, j2));
                    if !(w2 < src.len() && src[w2] == 41) {
                        None
                    } else {
                        match sp_block(src, nxt(src, i, w2 + 1)) {
                            Some((then_branch, j3)) => {
                                let w3 = sp_ws(src, nxt(src, i, j3));
                                if sp_kw(src, w3, seq![101u8, 108u8, 115u8, 101u8]) {
                                    match sp_block(src, nxt(src, i, w3 + 4)) {
                                        Some((else_branch, j4)) => Some(
                                            (StmtS::If(cond, then_branch, else_branch), j4),
                                        ),
                                        None => None,
                                    }
                                } else {
                                    Some((StmtS::If(cond, then_branch, Seq::<StmtS>::empty()), j3))
                                }
                            },
                            None => None,
                        }
                    }
                },
                None => None,
            }
        }
    } else if j < src.len() && src[j] == 36 {
        match sp_ident(src, nxt(src, i, j + 1)) {
            Some((name, j2)) => {
                let w = sp_ws(src, nxt(src, i, j2));
                if !(w < src.len() && src[w] == 61) {
                    None
                } else {
                    match sp_expr(src, nxt(src, i, w + 1)) {
                        Some((e, j3)) => {
                            let w2 = sp_ws(src, nxt(src, i, j3));
                            if w2 < src.len() && src[w2] == 59 {
                                Some((StmtS::Assign(name, e), w2 + 1))
                            } else {
                                None
                            }
                        },
                        None => None,
                    }
                }
            },
            None => None,
        }
    } else {
        None
    }
}

/// The braced block of statements at `i`.
pub open spec fn sp_block(src: Seq<u8>, i: int) -> Option<(Seq<StmtS>, int)>
    decreases src.len() - i, 7int,
        when 0 <= i <= src.len()
{
    let j = sp_ws(src, i);
    if j < src.len() && src[j] == 123 {
        sp_block_items(src, nxt(src, i, j + 1), Seq::<StmtS>::empty())
    } else {
        None
    }
}

/// The statements of a block after its opening brace.
pub open spec fn sp_block_items(src: Seq<u8>, i: int, acc: Seq<StmtS>) -> Option<
    (Seq<StmtS>, int),
>
    decreases src.len() - i, 6int,
        when 0 <= i <= src.len()
{
    let w = sp_ws(src, i);
    if w < src.len() && src[w] == 125 {
        Some((acc, w + 1))
    } else if i < src.len() {
        match sp_stmt(src, i) {
            Some((s, j2)) => sp_block_items(src, nxt(src, i, j2), acc.push(s)),
            None => None,
        }
    } else {
        None
    }
}

/// The statements of a whole program from `i` on.
pub open spec fn sp_prog_items(src: Seq<u8>, i: int, acc: Seq<StmtS>) -> Option<Seq<StmtS>>
    decreases src.len() - i, 6int,
        when 0 <= i <= src.len()
{
    if sp_ws(src, i) >= src.len() {
        Some(acc)
    } else {
        match sp_stmt(src, i) {
            Some((s, j)) => sp_prog_items(src, nxt(src, i, j), acc.push(s)),
            None => None,
        }
    }
}

/// The program the source denotes, in ghost form, or nothing when the
/// source is outside the accepted grammar.
pub open spec fn sp_program(src: Seq<u8>) -> Option<Seq<StmtS>> {
    sp_prog_items(src, 0, Seq::<StmtS>::empty())
}

} // verus!
