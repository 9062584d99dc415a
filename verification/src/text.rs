//! Text utilities: lists of strings, joining, decimal numerals.

use crate::json::same_text;
use crate::strmap::lemma_utf8_injective;
use vstd::prelude::*;
use vstd::string::StringExecFns;

verus! {

/// The texts of a list of strings.
pub open spec fn strings_of(v: Seq<String>) -> Seq<Seq<char>> {
    v.map_values(|s: String| s@)
}

/// The texts of a list of string slices.
pub open spec fn strs_of(v: Seq<&str>) -> Seq<Seq<char>> {
    v.map_values(|s: &str| s@)
}

/// Whether two texts are equal.
pub fn text_eq(a: &str, b: &str) -> (r: bool)
    ensures
        r == (a@ == b@),
{
    proof {
        lemma_utf8_injective(a@, b@);
    }
    same_text(a, b)
}

/// Whether `names` holds the text `s`.
pub fn has_text(names: &Vec<String>, s: &str) -> (r: bool)
    ensures
        r == strings_of(names@).contains(s@),
{
    let mut i: usize = 0;
    while i < names.len()
        invariant
            0 <= i <= names@.len(),
            forall|j: int| 0 <= j < i ==> (#[trigger] names@[j])@ != s@,
        decreases names@.len() - i,
    {
        if same_text(names[i].as_str(), s) {
            proof {
                lemma_utf8_injective(names@[i as int]@, s@);
            }
            assert(strings_of(names@)[i as int] == s@);
            return true;
        }
        i = i + 1;
    }
    assert forall|j: int| 0 <= j < strings_of(names@).len() implies strings_of(names@)[j] != s@ by {
        assert(strings_of(names@)[j] == names@[j]@);
    }
    false
}

/// Whether `names` holds the text `s`.
pub fn has_str(names: &Vec<&str>, s: &str) -> (r: bool)
    ensures
        r == strs_of(names@).contains(s@),
{
    let mut i: usize = 0;
    while i < names.len()
        invariant
            0 <= i <= names@.len(),
            forall|j: int| 0 <= j < i ==> (#[trigger] names@[j])@ != s@,
        decreases names@.len() - i,
    {
        if same_text(names[i], s) {
            proof {
                lemma_utf8_injective(names@[i as int]@, s@);
            }
            assert(strs_of(names@)[i as int] == s@);
            return true;
        }
        i = i + 1;
    }
    assert forall|j: int| 0 <= j < strs_of(names@).len() implies strs_of(names@)[j] != s@ by {
        assert(strs_of(names@)[j] == names@[j]@);
    }
    false
}

/// The texts of `parts` with `sep` between each two of them.
pub open spec fn join(parts: Seq<Seq<char>>, sep: Seq<char>) -> Seq<char>
    decreases parts.len(),
{
    if parts.len() == 0 {
        Seq::empty()
    } else if parts.len() == 1 {
        parts[0]
    } else {
        join(parts.drop_last(), sep) + sep + parts.last()
    }
}

/// Joins the texts of `parts` with `sep` between each two of them.
pub fn join_strings(parts: &Vec<String>, sep: &str) -> (r: String)
    ensures
        r@ == join(strings_of(parts@), sep@),
{
    let ghost ps = strings_of(parts@);
    let mut out = String::new();
    if parts.len() == 0 {
        return out;
    }
    out.append(parts[0].as_str());
    proof {
        assert(ps.take(1).drop_last() =~= Seq::<Seq<char>>::empty());
        assert(out@ =~= join(ps.take(1), sep@));
    }
    let mut i: usize = 1;
    while i < parts.len()
        invariant
            1 <= i <= parts@.len(),
            ps == strings_of(parts@),
            out@ == join(ps.take(i as int), sep@),
        decreases parts@.len() - i,
    {
        out.append(sep);
        out.append(parts[i].as_str());
        proof {
            assert(ps.take(i + 1).drop_last() =~= ps.take(i as int));
            assert(ps.take(i + 1).last() == parts@[i as int]@);
        }
        i = i + 1;
    }
    assert(ps.take(i as int) =~= ps);
    out
}

/// The character of a decimal digit.
pub open spec fn digit_char(d: nat) -> char {
    ((d + 48) as u8) as char
}

/// The decimal numeral of `n`, without leading zeros.
pub open spec fn decimal(n: nat) -> Seq<char>
    decreases n,
{
    if n < 10 {
        seq![digit_char(n)]
    } else {
        decimal(n / 10).push(digit_char(n % 10))
    }
}

/// Appends the character `c` to `s` (`String::push`).
#[verifier::external_body]
pub(crate) fn push_char(s: &mut String, c: char)
    ensures
        final(s)@ == old(s)@.push(c),
{
    s.push(c);
}

/// The decimal numeral of `n`.
pub fn u64_to_decimal(n: u64) -> (r: String)
    ensures
        r@ == decimal(n as nat),
{
    // The digits, least significant first.
    let mut digits: Vec<u8> = Vec::new();
    let mut m: u64 = n;
    let ghost mut rest: Seq<char> = Seq::empty();
    loop
        invariant_except_break
            decimal(n as nat) == decimal(m as nat) + rest,
        invariant
            rest.len() == digits@.len(),
            forall|j: int|
                0 <= j < digits@.len() ==> digits@[j] < 10 && rest[rest.len() - 1 - j]
                    == digit_char(digits@[j] as nat),
        ensures
            decimal(n as nat) == rest,
        decreases m,
    {
        let d = (m % 10) as u8;
        if m < 10 {
            digits.push(d);
            proof {
                assert(decimal(m as nat) == seq![digit_char(m as nat)]);
                assert(decimal(m as nat) + rest =~= seq![digit_char(m as nat)] + rest);
                rest = seq![digit_char(m as nat)] + rest;
            }
            break;
        }
        proof {
            assert(decimal(m as nat) == decimal((m / 10) as nat).push(digit_char((m % 10) as nat)));
            assert(decimal(m as nat) + rest =~= decimal((m / 10) as nat) + (seq![
                digit_char((m % 10) as nat),
            ] + rest));
            rest = seq![digit_char((m % 10) as nat)] + rest;
        }
        digits.push(d);
        m = m / 10;
    }
    let mut out = String::new();
    let mut i: usize = digits.len();
    while i > 0
        invariant
            0 <= i <= digits@.len(),
            rest.len() == digits@.len(),
            decimal(n as nat) == rest,
            forall|j: int|
                0 <= j < digits@.len() ==> digits@[j] < 10 && rest[rest.len() - 1 - j]
                    == digit_char(digits@[j] as nat),
            out@ == rest.subrange(0, (digits@.len() - i) as int),
        decreases i,
    {
        i = i - 1;
        let c = (digits[i] + 48) as char;
        proof {
            assert(c == digit_char(digits@[i as int] as nat));
            assert(rest.subrange(0, (digits@.len() - i) as int) =~= rest.subrange(
                0,
                (digits@.len() - i - 1) as int,
            ).push(rest[(digits@.len() - 1 - i) as int]));
        }
        push_char(&mut out, c);
    }
    assert(rest.subrange(0, rest.len() as int) =~= rest);
    out
}

pub proof fn lemma_strings_of_push(v: Seq<String>, x: String)
    ensures
        strings_of(v.push(x)) == strings_of(v).push(x@),
{
    assert(strings_of(v.push(x)) =~= strings_of(v).push(x@));
}

pub proof fn lemma_strings_of_add(a: Seq<String>, b: Seq<String>)
    ensures
        strings_of(a + b) == strings_of(a) + strings_of(b),
{
    assert(strings_of(a + b) =~= strings_of(a) + strings_of(b));
}

/// Owned copies of a list of string slices.
pub fn to_strings(items: &[&str]) -> (r: Vec<String>)
    ensures
        strings_of(r@) == strs_of(items@),
{
    let mut out: Vec<String> = Vec::new();
    let mut i: usize = 0;
    while i < items.len()
        invariant
            0 <= i <= items@.len(),
            strings_of(out@) == strs_of(items@).take(i as int),
        decreases items@.len() - i,
    {
        let t = items[i].to_string();
        proof {
            lemma_strings_of_push(out@, t);
            assert(strs_of(items@).take(i + 1) =~= strs_of(items@).take(i as int).push(t@));
        }
        out.push(t);
        i = i + 1;
    }
    assert(strs_of(items@).take(items@.len() as int) =~= strs_of(items@));
    out
}

} // verus!
