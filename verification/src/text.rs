use vstd::prelude::*;

verus! {

/// The text of each string of a list.
pub open spec fn texts(strings: Seq<String>) -> Seq<Seq<char>> {
    strings.map_values(|s: String| s@)
}

/// Whether `list` holds a string that reads `name`.
pub fn contains_text(list: &Vec<String>, name: &String) -> (found: bool)
    ensures
        found == texts(list@).contains(name@),
{
    let mut i: usize = 0;
    while i < list.len()
        invariant
            i <= list@.len(),
            forall|k: int| 0 <= k < i ==> texts(list@)[k] != name@,
        decreases list@.len() - i,
    {
        if list[i] == *name {
            assert(texts(list@)[i as int] == name@);
            return true;
        }
        i = i + 1;
    }
    false
}

/// The character that stands for a decimal digit.
pub open spec fn decimal_digit(d: nat) -> char {
    if d == 0 { '0' }
    else if d == 1 { '1' }
    else if d == 2 { '2' }
    else if d == 3 { '3' }
    else if d == 4 { '4' }
    else if d == 5 { '5' }
    else if d == 6 { '6' }
    else if d == 7 { '7' }
    else if d == 8 { '8' }
    else { '9' }
}

/// Decimal text of a natural number, without leading zeros (`0` is "0").
pub open spec fn decimal(n: nat) -> Seq<char>
    decreases n,
{
    if n < 10 {
        seq![decimal_digit(n)]
    } else {
        decimal(n / 10).push(decimal_digit(n % 10))
    }
}

/// The one-character text of a decimal digit.
fn digit_text(d: u8) -> (text: &'static str)
    requires
        d < 10,
    ensures
        text@ == seq![decimal_digit(d as nat)],
{
    proof {
        reveal_strlit("0");
        reveal_strlit("1");
        reveal_strlit("2");
        reveal_strlit("3");
        reveal_strlit("4");
        reveal_strlit("5");
        reveal_strlit("6");
        reveal_strlit("7");
        reveal_strlit("8");
        reveal_strlit("9");
    }
    let text = if d == 0 { "0" }
        else if d == 1 { "1" }
        else if d == 2 { "2" }
        else if d == 3 { "3" }
        else if d == 4 { "4" }
        else if d == 5 { "5" }
        else if d == 6 { "6" }
        else if d == 7 { "7" }
        else if d == 8 { "8" }
        else { "9" };
    assert(text@ =~= seq![decimal_digit(d as nat)]);
    text
}

/// The digits of `n` from the least significant one on.
spec fn digits_reversed(n: nat) -> Seq<nat>
    decreases n,
{
    if n < 10 {
        seq![n]
    } else {
        seq![n % 10] + digits_reversed(n / 10)
    }
}

/// The text that a list of digits, least significant first, reads as.
spec fn text_of_reversed(digits: Seq<nat>) -> Seq<char> {
    Seq::new(digits.len(), |i: int| decimal_digit(digits[digits.len() - 1 - i]))
}

/// The decimal text of a number is its digits read from the most
/// significant one.
proof fn lemma_decimal_from_reversed(n: nat)
    ensures
        decimal(n) == text_of_reversed(digits_reversed(n)),
    decreases n,
{
    if n >= 10 {
        lemma_decimal_from_reversed(n / 10);
        let inner = digits_reversed(n / 10);
        let r = digits_reversed(n);
        assert(r.len() == inner.len() + 1);
        assert forall|i: int| 0 <= i < r.len() implies #[trigger] decimal(n)[i]
            == text_of_reversed(r)[i] by {
            if i < inner.len() {
                assert(decimal(n)[i] == text_of_reversed(inner)[i]);
                assert(r[r.len() - 1 - i] == inner[inner.len() - 1 - i]);
            }
        }
        assert(decimal(n) =~= text_of_reversed(r));
    } else {
        assert(decimal(n) =~= text_of_reversed(digits_reversed(n)));
    }
}

/// Renders an unsigned number as decimal text.
pub fn to_decimal(n: u128) -> (text: String)
    ensures
        text@ == decimal(n as nat),
{
    let mut digits: Vec<u8> = Vec::new();
    let mut rest: u128 = n;
    while rest >= 10
        invariant
            digits_reversed(n as nat) == digits@.map_values(|d: u8| d as nat) + digits_reversed(
                rest as nat,
            ),
            forall|i: int| 0 <= i < digits@.len() ==> digits@[i] < 10,
        decreases rest,
    {
        let ghost before = digits@.map_values(|d: u8| d as nat);
        digits.push((rest % 10) as u8);
        proof {
            let after = digits@.map_values(|d: u8| d as nat);
            assert(after =~= before.push((rest % 10) as nat));
            assert(before + digits_reversed(rest as nat) =~= after + digits_reversed(
                (rest / 10) as nat,
            ));
        }
        rest = rest / 10;
    }
    digits.push(rest as u8);
    proof {
        let all = digits@.map_values(|d: u8| d as nat);
        assert(all =~= digits_reversed(n as nat));
        lemma_decimal_from_reversed(n as nat);
    }
    let mut text = String::new();
    let mut left: usize = digits.len();
    while left > 0
        invariant
            left <= digits@.len(),
            digits@.map_values(|d: u8| d as nat) == digits_reversed(n as nat),
            forall|i: int| 0 <= i < digits@.len() ==> digits@[i] < 10,
            decimal(n as nat) == text_of_reversed(digits_reversed(n as nat)),
            text@ == decimal(n as nat).subrange(0, digits@.len() - left),
        decreases left,
    {
        left = left - 1;
        let d: u8 = digits[left];
        let ghost before = text@;
        text.append(digit_text(d));
        proof {
            let full = decimal(n as nat);
            let at = digits@.len() - 1 - left;
            let reversed = digits_reversed(n as nat);
            assert(reversed.len() == digits@.len());
            assert(reversed[left as int] == d as nat);
            assert(full[at] == decimal_digit(reversed[reversed.len() - 1 - at]));
            assert(text@ =~= full.subrange(0, at + 1));
        }
    }
    assert(text@ =~= decimal(n as nat));
    text
}

} // verus!
