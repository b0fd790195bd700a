//! Decimal names of array positions.
//!
//! The child at position `i` of an array is named by `i` written in decimal
//! digits, without a sign and without leading zeros.

use vstd::prelude::*;
use vstd::string::StringExecFns;

verus! {

pub open spec fn is_digit(c: char) -> bool {
    '0' <= c && c <= '9'
}

/// The digit that stands for `d`, for `d` below ten.
pub open spec fn digit(d: nat) -> char
    recommends
        d < 10,
{
    ('0' as nat + d) as char
}

/// The number that a digit stands for.
pub open spec fn digit_value(c: char) -> nat
    recommends
        is_digit(c),
{
    if is_digit(c) {
        (c as nat - '0' as nat) as nat
    } else {
        0
    }
}

/// `n` written in decimal digits.
pub open spec fn decimal(n: nat) -> Seq<char>
    decreases n,
{
    if n < 10 {
        seq![digit(n)]
    } else {
        decimal(n / 10).push(digit(n % 10))
    }
}

/// The number that a run of digits stands for.
pub open spec fn digits_value(digits: Seq<char>) -> nat
    decreases digits.len(),
{
    if digits.len() == 0 {
        0
    } else {
        digits_value(digits.drop_last()) * 10 + digit_value(digits.last())
    }
}

/// A name is the decimal name of a position if it is a non-empty run of
/// digits that does not start with a zero, unless it is "0" itself.
pub open spec fn is_decimal(name: Seq<char>) -> bool {
    &&& name.len() > 0
    &&& forall|i: int| 0 <= i < name.len() ==> is_digit(#[trigger] name[i])
    &&& name.len() > 1 ==> name[0] != '0'
}

/// The position that a name stands for, if it is the decimal name of one.
pub open spec fn decimal_index(name: Seq<char>) -> Option<nat> {
    if is_decimal(name) {
        Some(digits_value(name))
    } else {
        None
    }
}

/// A longer run of digits stands for no smaller number than its beginning.
proof fn lemma_digits_value_grows(digits: Seq<char>, k: int)
    requires
        0 <= k <= digits.len(),
    ensures
        digits_value(digits.take(k)) <= digits_value(digits),
    decreases digits.len(),
{
    if k == digits.len() {
        assert(digits.take(k) =~= digits);
    } else {
        lemma_digits_value_grows(digits.drop_last(), k);
        assert(digits.drop_last().take(k) =~= digits.take(k));
    }
}

/// A run of digits that starts with a digit other than zero stands for a
/// positive number.
proof fn lemma_digits_value_positive(digits: Seq<char>)
    requires
        digits.len() > 0,
        is_digit(digits[0]),
        digits[0] != '0',
    ensures
        digits_value(digits) > 0,
{
    lemma_digits_value_grows(digits, 1);
    let head = digits.take(1);
    assert(head.drop_last() =~= Seq::<char>::empty());
    assert(digits_value(head.drop_last()) == 0);
    assert(head.last() == digits[0]);
}

/// The decimal name of a number is a decimal name, and stands for that number.
pub proof fn lemma_decimal_names_index(n: nat)
    ensures
        decimal_index(decimal(n)) == Some(n),
    decreases n,
{
    let name = decimal(n);
    if n < 10 {
        assert(name.drop_last() =~= Seq::<char>::empty());
        assert(digits_value(name.drop_last()) == 0);
    } else {
        let front = decimal(n / 10);
        lemma_decimal_names_index(n / 10);
        assert(name.drop_last() =~= front);
        assert(name[0] == front[0]);
        if front.len() == 1 {
            assert(front.drop_last() =~= Seq::<char>::empty());
            assert(digits_value(front.drop_last()) == 0);
            assert(digit_value(front[0]) == n / 10);
        }
        assert forall|i: int| 0 <= i < name.len() implies is_digit(#[trigger] name[i]) by {
            if i < front.len() {
                assert(name[i] == front[i]);
            }
        }
    }
}

/// A decimal name is the decimal name of the number it stands for: no two
/// names stand for the same position.
pub proof fn lemma_index_names_decimal(name: Seq<char>)
    requires
        is_decimal(name),
    ensures
        decimal(digits_value(name)) == name,
    decreases name.len(),
{
    if name.len() == 1 {
        assert(name.drop_last() =~= Seq::<char>::empty());
        assert(digits_value(name.drop_last()) == 0);
        assert(decimal(digits_value(name)) =~= name);
    } else {
        let front = name.drop_last();
        assert(front[0] == name[0]);
        assert forall|i: int| 0 <= i < front.len() implies is_digit(#[trigger] front[i]) by {
            assert(front[i] == name[i]);
        }
        lemma_index_names_decimal(front);
        lemma_digits_value_positive(front);
        let n = digits_value(name);
        assert(n / 10 == digits_value(front));
        assert(n % 10 == digit_value(name.last()));
        assert(decimal(n) =~= name);
    }
}

/// The text of one digit.
fn digit_text(d: usize) -> (text: &'static str)
    requires
        d < 10,
    ensures
        text@ == seq![digit(d as nat)],
{
    proof {
        reveal_strlit("0");
        reveal_strlit("1");
        reveal_strlit("2");
        reveal_strlit("3");
        reveal_strlit("4");
        reveal_strlit("5");
        reveal_strlit("6");
        reveal_strlit("7");
        reveal_strlit("8");
        reveal_strlit("9");
    }
    let text = if d == 0 {
        "0"
    } else if d == 1 {
        "1"
    } else if d == 2 {
        "2"
    } else if d == 3 {
        "3"
    } else if d == 4 {
        "4"
    } else if d == 5 {
        "5"
    } else if d == 6 {
        "6"
    } else if d == 7 {
        "7"
    } else if d == 8 {
        "8"
    } else {
        "9"
    };
    assert(text@ =~= seq![digit(d as nat)]);
    text
}

/// The name of the child at position `index` of an array.
pub fn index_name(index: usize) -> (name: String)
    ensures
        name@ == decimal(index as nat),
    decreases index,
{
    if index < 10 {
        String::from_str(digit_text(index))
    } else {
        let mut name = index_name(index / 10);
        name.append(digit_text(index % 10));
        name
    }
}

/// The position that `name` stands for, if it is the decimal name of a
/// position that a `usize` can hold.
pub fn parse_index(name: &[char]) -> (index: Option<usize>)
    ensures
        match index {
            Some(i) => decimal_index(name@) == Some(i as nat),
            None => match decimal_index(name@) {
                Some(n) => n > usize::MAX,
                None => true,
            },
        },
{
    let len = name.len();
    if len == 0 {
        return None;
    }
    if len > 1 && name[0] == '0' {
        return None;
    }
    let mut value: usize = 0;
    let mut i: usize = 0;
    while i < len
        invariant
            len == name.len(),
            i <= len,
            forall|j: int| 0 <= j < i ==> is_digit(#[trigger] name[j]),
            value == digits_value(name@.take(i as int)),
        decreases len - i,
    {
        let c = name[i];
        if c < '0' || c > '9' {
            return None;
        }
        let d: usize = (c as u32 - '0' as u32) as usize;
        proof {
            let upto = name@.take(i + 1);
            assert(upto.drop_last() =~= name@.take(i as int));
            assert(upto.last() == c);
            assert(digits_value(upto) == value * 10 + d);
            lemma_digits_value_grows(name@, i + 1);
        }
        let tens = match value.checked_mul(10) {
            Some(tens) => tens,
            None => {
                return None;
            },
        };
        value = match tens.checked_add(d) {
            Some(sum) => sum,
            None => {
                return None;
            },
        };
        i += 1;
    }
    assert(name@.take(len as int) =~= name@);
    Some(value)
}

} // verus!
