//! The symbol names of anonymous allocations.

use crate::ident::AllocId;
use vstd::prelude::*;
use vstd::string::StringExecFns;

verus! {

/// The character of a decimal digit.
pub open spec fn digit_char(digit: nat) -> char {
    (48 + digit) as char
}

/// The decimal numeral of `n`, without leading zeros.
pub open spec fn decimal(n: nat) -> Seq<char>
    decreases n,
{
    if n < 10 {
        seq![digit_char(n)]
    } else {
        decimal(n / 10).push(digit_char(n % 10))
    }
}

/// The number that a decimal numeral stands for.
pub open spec fn decimal_value(numeral: Seq<char>) -> nat
    decreases numeral.len(),
{
    if numeral.len() == 0 {
        0
    } else {
        (decimal_value(numeral.drop_last()) * 10 + (numeral.last() as nat - 48)) as nat
    }
}

/// What the symbol of every anonymous allocation begins with.
pub open spec fn alloc_prefix() -> Seq<char> {
    seq!['_', '_', 'a', 'l', 'l', 'o', 'c', '_']
}

/// The symbol under which an allocation is declared: `__alloc_` and the
/// decimal numeral of its identity.
pub open spec fn alloc_symbol(id: AllocId) -> Seq<char> {
    alloc_prefix() + decimal(id.0 as nat)
}

/// The characters of `digits`, last digit first.
pub open spec fn reversed_digits(digits: Seq<u8>) -> Seq<char> {
    Seq::new(digits.len(), |i: int| digit_char(digits[digits.len() - 1 - i] as nat))
}

pub proof fn lemma_decimal_value(n: nat)
    ensures
        decimal_value(decimal(n)) == n,
    decreases n,
{
    if n < 10 {
        assert(decimal(n).drop_last() =~= Seq::<char>::empty());
        assert(decimal_value(decimal(n).drop_last()) == 0);
    } else {
        lemma_decimal_value(n / 10);
        assert(decimal(n).drop_last() =~= decimal(n / 10));
    }
}

/// A numeral holds digits only.
pub proof fn lemma_decimal_digits(n: nat)
    ensures
        decimal(n).len() >= 1,
        forall|i: int| 0 <= i < decimal(n).len() ==> '0' <= #[trigger] decimal(n)[i] <= '9',
    decreases n,
{
    if n >= 10 {
        lemma_decimal_digits(n / 10);
    }
}

/// Two allocations with the same symbol are the same allocation.
pub proof fn lemma_alloc_symbol_injective(a: AllocId, b: AllocId)
    requires
        alloc_symbol(a) == alloc_symbol(b),
    ensures
        a == b,
{
    let da = decimal(a.0 as nat);
    let db = decimal(b.0 as nat);
    assert(alloc_symbol(a).skip(8) =~= da);
    assert(alloc_symbol(b).skip(8) =~= db);
    lemma_decimal_value(a.0 as nat);
    lemma_decimal_value(b.0 as nat);
}

/// The symbol of an allocation holds no NUL.
pub proof fn lemma_alloc_symbol_has_no_nul(id: AllocId)
    ensures
        !alloc_symbol(id).contains('\0'),
{
    let name = alloc_symbol(id);
    lemma_decimal_digits(id.0 as nat);
    assert forall|i: int| 0 <= i < name.len() implies name[i] != '\0' by {
        if i >= 8 {
            assert(name[i] == decimal(id.0 as nat)[i - 8]);
        }
    }
}

/// The one-character string of a decimal digit.
fn digit_str(digit: u8) -> (s: &'static str)
    requires
        digit < 10,
    ensures
        s@ == seq![digit_char(digit as nat)],
{
    proof {
        reveal_strlit("0");
        reveal_strlit("1");
        reveal_strlit("2");
        reveal_strlit("3");
        reveal_strlit("4");
        reveal_strlit("5");
        reveal_strlit("6");
        reveal_strlit("7");
        reveal_strlit("8");
        reveal_strlit("9");
    }
    let s = match digit {
        0 => "0",
        1 => "1",
        2 => "2",
        3 => "3",
        4 => "4",
        5 => "5",
        6 => "6",
        7 => "7",
        8 => "8",
        _ => "9",
    };
    assert(s@ =~= seq![digit_char(digit as nat)]);
    s
}

/// The symbol under which an allocation is declared.
pub fn alloc_symbol_name(id: AllocId) -> (name: String)
    ensures
        name@ == alloc_symbol(id),
{
    let mut digits: Vec<u8> = Vec::new();
    let mut rest: u64 = id.0;
    digits.push((rest % 10) as u8);
    rest = rest / 10;
    assert(decimal(id.0 as nat) =~= (if rest > 0 {
        decimal(rest as nat)
    } else {
        Seq::<char>::empty()
    }) + reversed_digits(digits@));
    while rest > 0
        invariant
            digits@.len() >= 1,
            forall|i: int| 0 <= i < digits@.len() ==> digits@[i] < 10,
            decimal(id.0 as nat) == (if rest > 0 {
                decimal(rest as nat)
            } else {
                Seq::<char>::empty()
            }) + reversed_digits(digits@),
        decreases rest,
    {
        let ghost before = digits@;
        let ghost previous = rest;
        let digit = (rest % 10) as u8;
        digits.push(digit);
        rest = rest / 10;
        assert(reversed_digits(digits@) =~= seq![digit_char(digit as nat)] + reversed_digits(
            before,
        ));
        assert(decimal(previous as nat) =~= (if rest > 0 {
            decimal(rest as nat)
        } else {
            Seq::<char>::empty()
        }) + seq![digit_char(digit as nat)]);
        assert(decimal(id.0 as nat) =~= (if rest > 0 {
            decimal(rest as nat)
        } else {
            Seq::<char>::empty()
        }) + reversed_digits(digits@));
    }
    let mut name = String::from_str("__alloc_");
    proof {
        reveal_strlit("__alloc_");
        assert(name@ =~= alloc_prefix());
    }
    let mut i: usize = digits.len();
    while i > 0
        invariant
            i <= digits@.len(),
            forall|j: int| 0 <= j < digits@.len() ==> digits@[j] < 10,
            name@ == alloc_prefix() + reversed_digits(digits@).take(digits@.len() - i),
        decreases i,
    {
        i = i - 1;
        let ghost before = name@;
        name.append(digit_str(digits[i]));
        assert(name@ =~= alloc_prefix() + reversed_digits(digits@).take(digits@.len() - i));
    }
    assert(reversed_digits(digits@).take(digits@.len() as int) =~= reversed_digits(digits@));
    name
}

} // verus!
