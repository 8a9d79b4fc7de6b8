//! Small helpers for building strings.

use itertools::Itertools;
use vstd::prelude::*;
use vstd::string::*;

verus! {

/// Append one character to a string.
///
/// Wraps `String::push`, which appends the given `char` to the end of the string.
#[verifier::external_body]
pub(crate) fn push_char(s: &mut String, c: char)
    ensures
        final(s)@ == old(s)@.push(c),
{
    s.push(c)
}

/// Compare two string slices: they are equal when they consist of the same characters.
pub(crate) fn str_eq(a: &str, b: &str) -> (r: bool)
    ensures
        r == (a@ == b@),
{
    String::from_str(a) == String::from_str(b)
}

/// The elements of `parts`, separated by `sep`.
pub open spec fn joined(parts: Seq<Seq<char>>, sep: Seq<char>) -> Seq<char>
    decreases parts.len(),
{
    if parts.len() == 0 {
        Seq::empty()
    } else if parts.len() == 1 {
        parts[0]
    } else {
        joined(parts.drop_last(), sep) + sep + parts.last()
    }
}

/// The character sequences of a list of strings.
pub open spec fn string_views(parts: Seq<String>) -> Seq<Seq<char>> {
    parts.map_values(|s: String| s@)
}

/// Combine all strings in `parts` into one, separated by `sep`.
///
/// Wraps `Itertools::join`, which writes each element in turn with `sep` between consecutive
/// elements, and gives the empty string when there are no elements.
#[verifier::external_body]
pub(crate) fn join(parts: &Vec<String>, sep: &str) -> (r: String)
    ensures
        r@ == joined(string_views(parts@), sep@),
{
    parts.iter().join(sep)
}

/// The character for a single decimal digit.
pub open spec fn digit(d: nat) -> char
    recommends
        d < 10,
{
    if d == 0 {
        '0'
    } else if d == 1 {
        '1'
    } else if d == 2 {
        '2'
    } else if d == 3 {
        '3'
    } else if d == 4 {
        '4'
    } else if d == 5 {
        '5'
    } else if d == 6 {
        '6'
    } else if d == 7 {
        '7'
    } else if d == 8 {
        '8'
    } else {
        '9'
    }
}

/// The decimal representation of `n`, without leading zeros.
pub open spec fn decimal(n: nat) -> Seq<char>
    decreases n,
{
    if n < 10 {
        seq![digit(n)]
    } else {
        decimal(n / 10).push(digit(n % 10))
    }
}

fn digit_char(d: u64) -> (c: char)
    requires
        d < 10,
    ensures
        c == digit(d as nat),
{
    if d == 0 {
        '0'
    } else if d == 1 {
        '1'
    } else if d == 2 {
        '2'
    } else if d == 3 {
        '3'
    } else if d == 4 {
        '4'
    } else if d == 5 {
        '5'
    } else if d == 6 {
        '6'
    } else if d == 7 {
        '7'
    } else if d == 8 {
        '8'
    } else {
        '9'
    }
}

/// Format `n` in decimal.
pub fn to_decimal(n: u64) -> (r: String)
    ensures
        r@ == decimal(n as nat),
{
    // Collect the digits from least to most significant, then emit them in reverse.
    let mut digits: Vec<char> = Vec::new();
    let mut rest = n;
    while rest >= 10
        invariant
            decimal(n as nat) == decimal(rest as nat) + digits@.reverse(),
        decreases rest,
    {
        let c = digit_char(rest % 10);
        proof {
            let prev = digits@;
            assert(prev.push(c).reverse() =~= seq![c] + prev.reverse());
            assert(decimal(rest as nat) == decimal((rest / 10) as nat).push(c));
            assert(decimal((rest / 10) as nat).push(c) + prev.reverse() =~= decimal(
                (rest / 10) as nat,
            ) + (seq![c] + prev.reverse()));
        }
        digits.push(c);
        rest = rest / 10;
    }
    let mut out = String::new();
    push_char(&mut out, digit_char(rest));
    let mut i = digits.len();
    while i > 0
        invariant
            i <= digits.len(),
            out@ == decimal(rest as nat) + digits@.reverse().take(digits.len() - i),
            rest < 10,
        decreases i,
    {
        i -= 1;
        proof {
            let r = digits@.reverse();
            let k = digits.len() - i - 1;
            assert(r.take(k + 1) =~= r.take(k).push(r[k]));
            assert(r[k] == digits@[i as int]);
            assert((decimal(rest as nat) + r.take(k)).push(r[k]) =~= decimal(rest as nat) + r.take(
                k + 1,
            ));
        }
        push_char(&mut out, digits[i]);
    }
    proof {
        assert(digits@.reverse().take(digits.len() as int) =~= digits@.reverse());
    }
    out
}

/// Concatenate two strings.
pub fn concat2(a: &str, b: &str) -> (r: String)
    ensures
        r@ == a@ + b@,
{
    let mut out = String::from_str(a);
    out.append(b);
    out
}

/// Concatenate three strings.
pub fn concat3(a: &str, b: &str, c: &str) -> (r: String)
    ensures
        r@ == a@ + b@ + c@,
{
    let mut out = String::from_str(a);
    out.append(b);
    out.append(c);
    out
}

/// Whether no two of `names` have the same characters.
pub open spec fn distinct(names: Seq<String>) -> bool {
    forall|i: int, j: int| 0 <= i < j < names.len() ==> (#[trigger] names[i])@ != (#[trigger] names[j])@
}

/// The position of the first of `names` with the characters `name`, if there is one.
pub open spec fn position(names: Seq<String>, name: Seq<char>) -> Option<int>
    decreases names.len(),
{
    if names.len() == 0 {
        None
    } else {
        match position(names.drop_last(), name) {
            Some(i) => Some(i),
            None => if names.last()@ == name {
                Some(names.len() - 1)
            } else {
                None
            },
        }
    }
}

/// Facts about the first position of a name.
pub proof fn lemma_position(names: Seq<String>, name: Seq<char>)
    ensures
        match position(names, name) {
            Some(i) => 0 <= i < names.len() && names[i]@ == name && forall|j: int|
                0 <= j < i ==> (#[trigger] names[j])@ != name,
            None => forall|j: int| 0 <= j < names.len() ==> (#[trigger] names[j])@ != name,
        },
    decreases names.len(),
{
    if names.len() > 0 {
        lemma_position(names.drop_last(), name);
        match position(names.drop_last(), name) {
            Some(i) => {
                assert forall|j: int| 0 <= j < i implies (#[trigger] names[j])@ != name by {
                    assert(names[j] == names.drop_last()[j]);
                }
            },
            None => {
                assert forall|j: int| 0 <= j < names.len() - 1 implies (#[trigger] names[j])@
                    != name by {
                    assert(names[j] == names.drop_last()[j]);
                }
            },
        }
    }
}

/// Find the position of the first of `names` which equals `name`.
pub fn find(names: &Vec<String>, name: &str) -> (r: Option<usize>)
    ensures
        r matches Some(i) ==> position(names@, name@) == Some(i as int),
        r is None ==> position(names@, name@) is None,
{
    let mut i: usize = 0;
    while i < names.len()
        invariant
            i <= names.len(),
            forall|j: int| 0 <= j < i ==> (#[trigger] names@[j])@ != name@,
        decreases names.len() - i,
    {
        if str_eq(names[i].as_str(), name) {
            proof {
                lemma_position(names@, name@);
            }
            return Some(i);
        }
        i += 1;
    }
    proof {
        lemma_position(names@, name@);
    }
    None
}

/// Test whether no two of `names` are equal.
pub fn check_distinct(names: &Vec<String>) -> (r: bool)
    ensures
        r == distinct(names@),
{
    let mut j: usize = 0;
    while j < names.len()
        invariant
            j <= names.len(),
            distinct(names@.take(j as int)),
        decreases names.len() - j,
    {
        let mut i: usize = 0;
        while i < j
            invariant
                i <= j,
                j < names.len(),
                forall|k: int| 0 <= k < i ==> (#[trigger] names@[k])@ != names@[j as int]@,
            decreases j - i,
        {
            if str_eq(names[i].as_str(), names[j].as_str()) {
                return false;
            }
            i += 1;
        }
        proof {
            let longer = names@.take(j + 1);
            assert forall|a: int, b: int| 0 <= a < b < longer.len() implies (#[trigger] longer[a])@
                != (#[trigger] longer[b])@ by {
                if b < j {
                    assert(names@.take(j as int)[a] == longer[a]);
                    assert(names@.take(j as int)[b] == longer[b]);
                }
            }
        }
        j += 1;
    }
    proof {
        assert(names@.take(names.len() as int) =~= names@);
    }
    true
}

/// The position of the last of `names` with the characters `name`, if there is one.
pub open spec fn last_position(names: Seq<String>, name: Seq<char>) -> Option<int>
    decreases names.len(),
{
    if names.len() == 0 {
        None
    } else if names.last()@ == name {
        Some(names.len() - 1)
    } else {
        last_position(names.drop_last(), name)
    }
}

/// Facts about the last position of a name.
pub proof fn lemma_last_position(names: Seq<String>, name: Seq<char>)
    ensures
        match last_position(names, name) {
            Some(i) => 0 <= i < names.len() && names[i]@ == name && forall|j: int|
                i < j < names.len() ==> (#[trigger] names[j])@ != name,
            None => forall|j: int| 0 <= j < names.len() ==> (#[trigger] names[j])@ != name,
        },
    decreases names.len(),
{
    if names.len() > 0 && names.last()@ != name {
        lemma_last_position(names.drop_last(), name);
        match last_position(names.drop_last(), name) {
            Some(i) => {
                assert(names[i] == names.drop_last()[i]);
                assert forall|j: int| i < j < names.len() implies (#[trigger] names[j])@ != name by {
                    if j < names.len() - 1 {
                        assert(names[j] == names.drop_last()[j]);
                    }
                }
            },
            None => {
                assert forall|j: int| 0 <= j < names.len() implies (#[trigger] names[j])@ != name by {
                    if j < names.len() - 1 {
                        assert(names[j] == names.drop_last()[j]);
                    }
                }
            },
        }
    }
}

/// Among names of which no two are equal, a name has one position.
pub proof fn lemma_position_distinct(names: Seq<String>, i: int)
    requires
        distinct(names),
        0 <= i < names.len(),
    ensures
        position(names, names[i]@) == Some(i),
        last_position(names, names[i]@) == Some(i),
{
    lemma_position(names, names[i]@);
    lemma_last_position(names, names[i]@);
}

/// Find the position of the last of `names` which equals `name`.
pub fn find_last(names: &Vec<String>, name: &str) -> (r: Option<usize>)
    ensures
        r matches Some(i) ==> last_position(names@, name@) == Some(i as int),
        r is None ==> last_position(names@, name@) is None,
{
    let mut i: usize = names.len();
    while i > 0
        invariant
            i <= names.len(),
            forall|j: int| i <= j < names.len() ==> (#[trigger] names@[j])@ != name@,
        decreases i,
    {
        i -= 1;
        if str_eq(names[i].as_str(), name) {
            proof {
                lemma_last_position(names@, name@);
            }
            return Some(i);
        }
    }
    proof {
        lemma_last_position(names@, name@);
    }
    None
}

} // verus!
