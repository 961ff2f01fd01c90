use vstd::prelude::*;

verus! {

/// The digit character for a value below ten.
pub open spec fn digit(d: nat) -> char {
    seq!['0', '1', '2', '3', '4', '5', '6', '7', '8', '9'][d as int]
}

/// The decimal notation of `n`, most significant digit first, without
/// leading zeros.
pub open spec fn decimal(n: nat) -> Seq<char>
    decreases n,
{
    if n < 10 {
        seq![digit(n)]
    } else {
        decimal(n / 10) + seq![digit(n % 10)]
    }
}

proof fn lemma_digit_injective(a: nat, b: nat)
    requires
        a < 10,
        b < 10,
        digit(a) == digit(b),
    ensures
        a == b,
{
}

proof fn lemma_decimal_len(n: nat)
    ensures
        decimal(n).len() >= 1,
        n >= 10 ==> decimal(n).len() >= 2,
    decreases n,
{
    if n >= 10 {
        lemma_decimal_len(n / 10);
    }
}

/// Two numbers with the same decimal notation are equal.
pub proof fn lemma_decimal_injective(a: nat, b: nat)
    requires
        decimal(a) == decimal(b),
    ensures
        a == b,
    decreases a,
{
    lemma_decimal_len(a);
    lemma_decimal_len(b);
    if a < 10 && b < 10 {
        assert(decimal(a)[0] == digit(a));
        assert(decimal(b)[0] == digit(b));
        lemma_digit_injective(a, b);
    } else if a >= 10 && b >= 10 {
        let da = decimal(a);
        let db = decimal(b);
        assert(da.last() == digit(a % 10));
        assert(db.last() == digit(b % 10));
        lemma_digit_injective(a % 10, b % 10);
        assert(decimal(a / 10) =~= da.drop_last());
        assert(decimal(b / 10) =~= db.drop_last());
        lemma_decimal_injective(a / 10, b / 10);
    }
}

/// A fixed prefix followed by the decimal notation of a number names that
/// number alone.
pub proof fn lemma_prefixed_decimal_injective(p: Seq<char>, a: nat, b: nat)
    requires
        p + decimal(a) == p + decimal(b),
    ensures
        a == b,
{
    assert(decimal(a) =~= (p + decimal(a)).subrange(p.len() as int, (p + decimal(a)).len() as int));
    assert(decimal(b) =~= (p + decimal(b)).subrange(p.len() as int, (p + decimal(b)).len() as int));
    lemma_decimal_injective(a, b);
}

fn digit_str(d: usize) -> (r: &'static str)
    requires
        d < 10,
    ensures
        r@ == seq![digit(d as nat)],
{
    proof {
        reveal_strlit("0");
        reveal_strlit("1");
        reveal_strlit("2");
        reveal_strlit("3");
        reveal_strlit("4");
        reveal_strlit("5");
        reveal_strlit("6");
        reveal_strlit("7");
        reveal_strlit("8");
        reveal_strlit("9");
    }
    if d == 0 {
        "0"
    } else if d == 1 {
        "1"
    } else if d == 2 {
        "2"
    } else if d == 3 {
        "3"
    } else if d == 4 {
        "4"
    } else if d == 5 {
        "5"
    } else if d == 6 {
        "6"
    } else if d == 7 {
        "7"
    } else if d == 8 {
        "8"
    } else {
        "9"
    }
}

/// Writes `n` in decimal.
pub fn decimal_string(n: usize) -> (r: String)
    ensures
        r@ == decimal(n as nat),
    decreases n,
{
    let mut s = if n >= 10 {
        decimal_string(n / 10)
    } else {
        String::new()
    };
    s.append(digit_str(n % 10));
    s
}

} // verus!
