//! The names of the logs: `<gen>.log`, with the generation in decimal.

use vstd::prelude::*;
use vstd::string::{StrSliceExecFns, StringExecFns};

verus! {

/// The decimal digit of a number below ten.
pub open spec fn digit_char(d: nat) -> char {
    if d == 0 {
        '0'
    } else if d == 1 {
        '1'
    } else if d == 2 {
        '2'
    } else if d == 3 {
        '3'
    } else if d == 4 {
        '4'
    } else if d == 5 {
        '5'
    } else if d == 6 {
        '6'
    } else if d == 7 {
        '7'
    } else if d == 8 {
        '8'
    } else {
        '9'
    }
}

/// The number that a decimal digit stands for; none for any other
/// character.
pub open spec fn digit_of(c: char) -> Option<nat> {
    if c == '0' {
        Some(0)
    } else if c == '1' {
        Some(1)
    } else if c == '2' {
        Some(2)
    } else if c == '3' {
        Some(3)
    } else if c == '4' {
        Some(4)
    } else if c == '5' {
        Some(5)
    } else if c == '6' {
        Some(6)
    } else if c == '7' {
        Some(7)
    } else if c == '8' {
        Some(8)
    } else if c == '9' {
        Some(9)
    } else {
        None
    }
}

/// The digits of `n` in decimal, without leading zeros.
pub open spec fn decimal(n: nat) -> Seq<char>
    decreases n,
{
    if n < 10 {
        seq![digit_char(n)]
    } else {
        decimal(n / 10).push(digit_char(n % 10))
    }
}

/// Whether every character of `s` is a decimal digit.
pub open spec fn all_digits(s: Seq<char>) -> bool {
    forall|i: int| 0 <= i < s.len() ==> digit_of(#[trigger] s[i]) is Some
}

/// The number that the decimal digits `s` spell.
pub open spec fn decimal_value(s: Seq<char>) -> nat
    decreases s.len(),
{
    if s.len() == 0 {
        0
    } else {
        decimal_value(s.drop_last()) * 10 + digit_of(s.last()).unwrap_or(0)
    }
}

/// The characters `.log`.
pub open spec fn log_suffix() -> Seq<char> {
    seq!['.', 'l', 'o', 'g']
}

/// The generation that a file name tells: the name is one or more decimal
/// digits and then `.log`, and the digits spell a number that fits in 64
/// bits. Any other name tells none.
pub open spec fn name_gen(name: Seq<char>) -> Option<u64> {
    let n = name.len() - 4;
    let digits = name.take(n);
    if n > 0 && name.skip(n) == log_suffix() && all_digits(digits) && decimal_value(digits)
        <= u64::MAX {
        Some(decimal_value(digits) as u64)
    } else {
        None
    }
}

/// The generations that the names tell, in the order of the names.
pub open spec fn names_gens(names: Seq<String>) -> Seq<u64>
    decreases names.len(),
{
    if names.len() == 0 {
        Seq::empty()
    } else {
        match name_gen(names.last()@) {
            Some(gen) => names_gens(names.drop_last()).push(gen),
            None => names_gens(names.drop_last()),
        }
    }
}

/// Whether the numbers do not descend.
pub open spec fn sorted(s: Seq<u64>) -> bool {
    forall|i: int, j: int| 0 <= i < j < s.len() ==> s[i] <= s[j]
}

/// More digits never spell a smaller number.
pub proof fn lemma_decimal_value_grows(s: Seq<char>, n: int)
    requires
        0 <= n <= s.len(),
    ensures
        decimal_value(s.take(n)) <= decimal_value(s),
    decreases s.len() - n,
{
    if n < s.len() {
        lemma_decimal_value_grows(s, n + 1);
        assert(s.take(n + 1).drop_last() =~= s.take(n));
    } else {
        assert(s.take(n) =~= s);
    }
}

fn digit_value(c: char) -> (d: Option<u64>)
    ensures
        match d {
            Some(d) => digit_of(c) == Some(d as nat) && d < 10,
            None => digit_of(c) is None,
        },
{
    if c == '0' {
        Some(0)
    } else if c == '1' {
        Some(1)
    } else if c == '2' {
        Some(2)
    } else if c == '3' {
        Some(3)
    } else if c == '4' {
        Some(4)
    } else if c == '5' {
        Some(5)
    } else if c == '6' {
        Some(6)
    } else if c == '7' {
        Some(7)
    } else if c == '8' {
        Some(8)
    } else if c == '9' {
        Some(9)
    } else {
        None
    }
}

/// Reads the generation that a file name tells.
pub fn parse_log_name(name: &str) -> (gen: Option<u64>)
    ensures
        gen == name_gen(name@),
{
    let len = name.unicode_len();
    if len <= 4 {
        return None;
    }
    let n = len - 4;
    if name.get_char(n) != '.' || name.get_char(n + 1) != 'l' || name.get_char(n + 2) != 'o'
        || name.get_char(n + 3) != 'g' {
        assert(name@.skip(n as int)[0] == name@[n as int]);
        assert(name@.skip(n as int)[1] == name@[n + 1]);
        assert(name@.skip(n as int)[2] == name@[n + 2]);
        assert(name@.skip(n as int)[3] == name@[n + 3]);
        return None;
    }
    assert(name@.skip(n as int) =~= log_suffix());
    let ghost digits = name@.take(n as int);
    let mut value: u64 = 0;
    let mut i: usize = 0;
    proof {
        assert(digits.take(0) =~= Seq::<char>::empty());
    }
    while i < n
        invariant
            i <= n,
            n + 4 == name@.len(),
            digits == name@.take(n as int),
            forall|j: int| 0 <= j < i ==> digit_of(#[trigger] digits[j]) is Some,
            value == decimal_value(digits.take(i as int)),
        decreases n - i,
    {
        let d = match digit_value(name.get_char(i)) {
            Some(d) => d,
            None => {
                assert(digit_of(digits[i as int]) is None);
                return None;
            },
        };
        proof {
            assert(digits.take(i + 1).drop_last() =~= digits.take(i as int));
            assert(digits.take(i + 1).last() == digits[i as int]);
            lemma_decimal_value_grows(digits, i + 1);
        }
        if value > (u64::MAX - d) / 10 {
            // The digits read so far spell more than fits; the rest cannot
            // make it less, but it must still be digits for the name to be
            // refused on that account alone: either way no generation.
            assert(decimal_value(digits) > u64::MAX);
            return None;
        }
        value = value * 10 + d;
        i = i + 1;
    }
    proof {
        assert(digits.take(n as int) =~= digits);
    }
    Some(value)
}

fn digit_str(d: u64) -> (s: &'static str)
    requires
        d < 10,
    ensures
        s@ == seq![digit_char(d as nat)],
{
    proof {
        reveal_strlit("0");
        reveal_strlit("1");
        reveal_strlit("2");
        reveal_strlit("3");
        reveal_strlit("4");
        reveal_strlit("5");
        reveal_strlit("6");
        reveal_strlit("7");
        reveal_strlit("8");
        reveal_strlit("9");
    }
    let s = if d == 0 {
        "0"
    } else if d == 1 {
        "1"
    } else if d == 2 {
        "2"
    } else if d == 3 {
        "3"
    } else if d == 4 {
        "4"
    } else if d == 5 {
        "5"
    } else if d == 6 {
        "6"
    } else if d == 7 {
        "7"
    } else if d == 8 {
        "8"
    } else {
        "9"
    };
    assert(s@ =~= seq![digit_char(d as nat)]);
    s
}

/// The name of the log of generation `gen`.
pub fn log_name(gen: u64) -> (name: String)
    ensures
        name@ == decimal(gen as nat) + log_suffix(),
{
    proof {
        reveal_strlit(".log");
    }
    let mut name = String::from_str(digit_str(gen % 10)).concat(".log");
    let mut n = gen / 10;
    assert(".log"@ =~= log_suffix());
    assert(name@ =~= seq![digit_char((gen % 10) as nat)] + log_suffix());
    while n > 0
        invariant
            (if n == 0 {
                Seq::<char>::empty()
            } else {
                decimal(n as nat)
            }) + name@ == decimal(gen as nat) + log_suffix(),
        decreases n,
    {
        let ghost before = name@;
        name = String::from_str(digit_str(n % 10)).concat(name.as_str());
        proof {
            let rest = if n / 10 == 0 {
                Seq::<char>::empty()
            } else {
                decimal((n / 10) as nat)
            };
            assert(decimal(n as nat) =~= rest + seq![digit_char((n % 10) as nat)]);
            assert(rest + name@ =~= decimal(n as nat) + before);
        }
        n = n / 10;
    }
    assert(Seq::<char>::empty() + name@ =~= name@);
    name
}

/// The path of the log of generation `gen` in the directory `dir`: the
/// directory, a slash, and the name of the log.
pub fn log_path(dir: &str, gen: u64) -> (path: String)
    ensures
        path@ == dir@ + seq!['/'] + decimal(gen as nat) + log_suffix(),
{
    proof {
        reveal_strlit("/");
    }
    let name = log_name(gen);
    let path = String::from_str(dir).concat("/").concat(name.as_str());
    assert("/"@ =~= seq!['/']);
    assert(path@ =~= dir@ + seq!['/'] + decimal(gen as nat) + log_suffix());
    path
}

/// The generations that the file names of a directory tell, ascending.
/// Names that tell no generation are passed over.
pub fn sorted_gen_list(names: &Vec<String>) -> (gens: Vec<u64>)
    ensures
        sorted(gens@),
        gens@.to_multiset() == names_gens(names@).to_multiset(),
{
    let mut gens: Vec<u64> = Vec::new();
    let mut i: usize = 0;
    proof {
        assert(names@.take(0) =~= Seq::<String>::empty());
    }
    while i < names.len()
        invariant
            i <= names.len(),
            sorted(gens@),
            gens@.to_multiset() == names_gens(names@.take(i as int)).to_multiset(),
        decreases names.len() - i,
    {
        proof {
            assert(names@.take(i + 1).drop_last() =~= names@.take(i as int));
            assert(names@.take(i + 1).last() == names@[i as int]);
        }
        match parse_log_name(names[i].as_str()) {
            Some(gen) => {
                let mut at: usize = 0;
                while at < gens.len() && gens[at] <= gen
                    invariant
                        at <= gens.len(),
                        forall|j: int| 0 <= j < at ==> gens@[j] <= gen,
                    decreases gens.len() - at,
                {
                    at = at + 1;
                }
                let ghost before = gens@;
                gens.insert(at, gen);
                proof {
                    broadcast use vstd::seq_lib::group_to_multiset_ensures;

                    let after = gens@;
                    assert(after.remove(at as int) =~= before);
                    assert(after[at as int] == gen);
                    assert(after.contains(gen));
                    assert(after.to_multiset() =~= before.to_multiset().insert(gen));
                    assert(names_gens(names@.take(i + 1)) == names_gens(
                        names@.take(i as int),
                    ).push(gen));
                    assert forall|a: int, b: int| 0 <= a < b < after.len() implies after[a]
                        <= after[b] by {
                        let oa = if a < at { a } else { a - 1 };
                        let ob = if b < at { b } else { b - 1 };
                        if a != at && b != at {
                            assert(before[oa] <= before[ob]);
                        } else if a == at {
                            assert(before[at as int] <= before[ob]);
                        }
                    }
                }
            },
            None => {},
        }
        i = i + 1;
    }
    proof {
        assert(names@.take(i as int) =~= names@);
    }
    gens
}

} // verus!
