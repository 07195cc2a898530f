//! Text renderings of numbers and bytes: lowercase hexadecimal and decimal.

use vstd::prelude::*;

verus! {

/// The sixteen lowercase hexadecimal digits, in order of value.
pub open spec fn hex_alphabet() -> Seq<char> {
    seq!['0', '1', '2', '3', '4', '5', '6', '7', '8', '9', 'a', 'b', 'c', 'd', 'e', 'f']
}

/// The two hexadecimal digits of one byte, high nibble first.
pub open spec fn byte_hex(b: u8) -> Seq<char> {
    seq![hex_alphabet()[(b / 16) as int], hex_alphabet()[(b % 16) as int]]
}

/// Lowercase hexadecimal text of a byte string, two digits per byte.
pub open spec fn lower_hex(bytes: Seq<u8>) -> Seq<char>
    decreases bytes.len(),
{
    if bytes.len() == 0 {
        Seq::empty()
    } else {
        lower_hex(bytes.drop_last()) + byte_hex(bytes.last())
    }
}

/// True when every character of `s` is a lowercase hexadecimal digit.
pub open spec fn is_lower_hex_text(s: Seq<char>) -> bool {
    forall|i: int| 0 <= i < s.len() ==> hex_alphabet().contains(#[trigger] s[i])
}

/// The decimal digits of a natural number, most significant first.
pub open spec fn decimal_nat(n: nat) -> Seq<char>
    decreases n,
{
    if n < 10 {
        seq![hex_alphabet()[n as int]]
    } else {
        decimal_nat(n / 10) + seq![hex_alphabet()[(n % 10) as int]]
    }
}

/// Decimal text of an integer, with a leading '-' when it is negative.
pub open spec fn decimal(i: int) -> Seq<char> {
    if i < 0 {
        seq!['-'] + decimal_nat((-i) as nat)
    } else {
        decimal_nat(i as nat)
    }
}

pub proof fn lemma_lower_hex_len(bytes: Seq<u8>)
    ensures
        lower_hex(bytes).len() == 2 * bytes.len(),
        is_lower_hex_text(lower_hex(bytes)),
    decreases bytes.len(),
{
    if bytes.len() > 0 {
        lemma_lower_hex_len(bytes.drop_last());
        let prev = lower_hex(bytes.drop_last());
        let b = bytes.last();
        assert(hex_alphabet().contains(hex_alphabet()[(b / 16) as int]));
        assert(hex_alphabet().contains(hex_alphabet()[(b % 16) as int]));
        assert forall|i: int| 0 <= i < lower_hex(bytes).len() implies hex_alphabet().contains(
            #[trigger] lower_hex(bytes)[i],
        ) by {
            if i < prev.len() {
                assert(lower_hex(bytes)[i] == prev[i]);
            }
        }
    }
}

fn one_digit(d: usize) -> (r: &'static str)
    requires
        d < 16,
    ensures
        r@ == seq![hex_alphabet()[d as int]],
{
    let digits: &'static str = "0123456789abcdef";
    proof {
        reveal_strlit("0123456789abcdef");
    }
    assert(digits@ =~= hex_alphabet());
    let r = digits.substring_char(d, d + 1);
    assert(r@ =~= seq![hex_alphabet()[d as int]]);
    r
}

/// Appends the lowercase hexadecimal text of `bytes` to `out`.
pub fn push_lower_hex(out: &mut String, bytes: &[u8])
    ensures
        final(out)@ == old(out)@ + lower_hex(bytes@),
{
    let ghost start = out@;
    let mut i: usize = 0;
    assert(bytes@.subrange(0, 0) =~= Seq::<u8>::empty());
    assert(start + Seq::<char>::empty() =~= start);
    while i < bytes.len()
        invariant
            i <= bytes@.len(),
            out@ == start + lower_hex(bytes@.subrange(0, i as int)),
        decreases bytes@.len() - i,
    {
        let b: u8 = bytes[i];
        let hi: usize = (b / 16) as usize;
        let lo: usize = (b % 16) as usize;
        out.append(one_digit(hi));
        out.append(one_digit(lo));
        proof {
            let pre = bytes@.subrange(0, i as int);
            let next = bytes@.subrange(0, i as int + 1);
            assert(next.drop_last() =~= pre);
            assert(next.last() == b);
            assert(lower_hex(next) == lower_hex(pre) + byte_hex(b));
            assert(start + lower_hex(pre) + seq![hex_alphabet()[hi as int]] + seq![
                hex_alphabet()[lo as int],
            ] =~= start + lower_hex(next));
        }
        i += 1;
    }
    assert(bytes@.subrange(0, bytes@.len() as int) =~= bytes@);
}

/// Appends the decimal digits of `n` to `out`.
pub fn push_decimal_u64(out: &mut String, n: u64)
    ensures
        final(out)@ == old(out)@ + decimal_nat(n as nat),
    decreases n,
{
    let ghost start = out@;
    if n >= 10 {
        push_decimal_u64(out, n / 10);
    }
    let d: usize = (n % 10) as usize;
    out.append(one_digit(d));
    proof {
        if n >= 10 {
            assert(start + decimal_nat((n / 10) as nat) + seq![hex_alphabet()[d as int]]
                =~= start + decimal_nat(n as nat));
        } else {
            assert(start + seq![hex_alphabet()[d as int]] =~= start + decimal_nat(n as nat));
        }
    }
}

/// Appends the decimal text of `i` to `out`, with a leading '-' when it is negative.
pub fn push_decimal_i64(out: &mut String, i: i64)
    requires
        i > i64::MIN,
    ensures
        final(out)@ == old(out)@ + decimal(i as int),
{
    let ghost start = out@;
    if i < 0 {
        let minus: &'static str = "-";
        proof {
            reveal_strlit("-");
        }
        out.append(minus);
        push_decimal_u64(out, (0 - i) as u64);
        assert(start + seq!['-'] + decimal_nat((-i) as nat) =~= start + decimal(i as int));
    } else {
        push_decimal_u64(out, i as u64);
    }
}

/// Distinct byte strings have distinct hexadecimal texts.
pub proof fn lemma_lower_hex_injective(a: Seq<u8>, b: Seq<u8>)
    requires
        lower_hex(a) == lower_hex(b),
    ensures
        a == b,
    decreases a.len(),
{
    lemma_lower_hex_len(a);
    lemma_lower_hex_len(b);
    if a.len() > 0 {
        let ha = lower_hex(a);
        let n = ha.len();
        let pa = lower_hex(a.drop_last());
        let pb = lower_hex(b.drop_last());
        lemma_lower_hex_len(a.drop_last());
        lemma_lower_hex_len(b.drop_last());
        assert(ha[n - 2] == byte_hex(a.last())[0]);
        assert(ha[n - 1] == byte_hex(a.last())[1]);
        assert(lower_hex(b)[n - 2] == byte_hex(b.last())[0]);
        assert(lower_hex(b)[n - 1] == byte_hex(b.last())[1]);
        let x = a.last();
        let y = b.last();
        assert(x / 16 == y / 16) by {
            assert(hex_alphabet()[(x / 16) as int] == hex_alphabet()[(y / 16) as int]);
        }
        assert(x % 16 == y % 16) by {
            assert(hex_alphabet()[(x % 16) as int] == hex_alphabet()[(y % 16) as int]);
        }
        assert(x == y) by (nonlinear_arith)
            requires
                x / 16 == y / 16,
                x % 16 == y % 16,
        ;
        assert(pa =~= ha.subrange(0, n - 2));
        assert(pb =~= lower_hex(b).subrange(0, n - 2));
        lemma_lower_hex_injective(a.drop_last(), b.drop_last());
        assert(a =~= a.drop_last().push(x));
        assert(b =~= b.drop_last().push(y));
    } else {
        assert(a =~= b);
    }
}

} // verus!
