//! How many decimal digits the smallest unit of a currency has, as Stripe
//! counts amounts.

use vstd::prelude::*;
use vstd::string::*;

verus! {

/// The currencies, by their lower-case ISO code, whose smallest unit is the
/// major unit itself, such as the yen.
pub open spec fn zero_decimal(code: Seq<char>) -> bool {
    ||| code == "bif"@
    ||| code == "clp"@
    ||| code == "djf"@
    ||| code == "gnf"@
    ||| code == "jpy"@
    ||| code == "kmf"@
    ||| code == "krw"@
    ||| code == "mga"@
    ||| code == "pyg"@
    ||| code == "rwf"@
    ||| code == "vnd"@
    ||| code == "vuv"@
    ||| code == "xaf"@
    ||| code == "xof"@
    ||| code == "xpf"@
}

/// The currencies, by their lower-case ISO code, whose smallest unit is a
/// thousandth of the major unit, such as the Kuwaiti dinar.
pub open spec fn three_decimal(code: Seq<char>) -> bool {
    ||| code == "bhd"@
    ||| code == "jod"@
    ||| code == "kwd"@
    ||| code == "omr"@
    ||| code == "tnd"@
}

/// The number of decimal digits that the smallest unit of a currency has. It
/// is two for all but the currencies above: that goes for the Icelandic króna
/// and the Ugandan shilling too, which Stripe counts in hundredths though they
/// have none.
pub open spec fn minor_digits(code: Seq<char>) -> nat {
    if zero_decimal(code) {
        0
    } else if three_decimal(code) {
        3
    } else {
        2
    }
}

/// An amount of units with so many decimal digits in mills, thousandths of the
/// major unit.
pub open spec fn in_mills(amount: int, digits: nat) -> int
    recommends
        digits <= 3,
{
    if digits == 0 {
        amount * 1000
    } else if digits == 1 {
        amount * 100
    } else if digits == 2 {
        amount * 10
    } else {
        amount
    }
}

fn same(code: &str, other: &str) -> (r: bool)
    ensures
        r == (code@ == other@),
{
    code.to_owned() == other.to_owned()
}

fn is_zero_decimal(code: &str) -> (r: bool)
    ensures
        r == zero_decimal(code@),
{
    same(code, "bif") || same(code, "clp") || same(code, "djf") || same(code, "gnf") || same(
        code,
        "jpy",
    ) || same(code, "kmf") || same(code, "krw") || same(code, "mga") || same(code, "pyg") || same(
        code,
        "rwf",
    ) || same(code, "vnd") || same(code, "vuv") || same(code, "xaf") || same(code, "xof") || same(
        code,
        "xpf",
    )
}

fn is_three_decimal(code: &str) -> (r: bool)
    ensures
        r == three_decimal(code@),
{
    same(code, "bhd") || same(code, "jod") || same(code, "kwd") || same(code, "omr") || same(
        code,
        "tnd",
    )
}

/// Converts an amount from the smallest unit of a currency to mills.
pub fn to_mills(amount: i64, code: &str) -> (r: i128)
    ensures
        r == in_mills(amount as int, minor_digits(code@)),
{
    if is_zero_decimal(code) {
        amount as i128 * 1000
    } else if is_three_decimal(code) {
        amount as i128
    } else {
        amount as i128 * 10
    }
}

/// An amount in a currency without a smaller unit is counted in major units, in
/// one of the five with mills in thousandths, and in any other in hundredths.
pub proof fn law_units_of_a_currency(code: Seq<char>, amount: int)
    ensures
        ({
            let mills = in_mills(amount, minor_digits(code));
            let whole = code == "bif"@ || code == "clp"@ || code == "djf"@ || code == "gnf"@ || code
                == "jpy"@ || code == "kmf"@ || code == "krw"@ || code == "mga"@ || code == "pyg"@
                || code == "rwf"@ || code == "vnd"@ || code == "vuv"@ || code == "xaf"@ || code
                == "xof"@ || code == "xpf"@;
            let thousandths = code == "bhd"@ || code == "jod"@ || code == "kwd"@ || code == "omr"@
                || code == "tnd"@;
            &&& whole ==> mills == 1000 * amount
            &&& thousandths ==> mills == amount
            &&& !whole && !thousandths ==> mills == 10 * amount
        }),
{
    lemma_no_currency_is_both(code);
}

proof fn lemma_no_currency_is_both(code: Seq<char>)
    ensures
        !(zero_decimal(code) && three_decimal(code)),
{
    reveal_strlit("bif");
    reveal_strlit("clp");
    reveal_strlit("djf");
    reveal_strlit("gnf");
    reveal_strlit("jpy");
    reveal_strlit("kmf");
    reveal_strlit("krw");
    reveal_strlit("mga");
    reveal_strlit("pyg");
    reveal_strlit("rwf");
    reveal_strlit("vnd");
    reveal_strlit("vuv");
    reveal_strlit("xaf");
    reveal_strlit("xof");
    reveal_strlit("xpf");
    reveal_strlit("bhd");
    reveal_strlit("jod");
    reveal_strlit("kwd");
    reveal_strlit("omr");
    reveal_strlit("tnd");
    if three_decimal(code) {
        assert(code[0] == 'b' && code[1] == 'h' || code[0] == 'j' && code[1] == 'o' || code[0]
            == 'k' && code[1] == 'w' || code[0] == 'o' || code[0] == 't');
    }
}

} // verus!
