//! Character-sequence utilities shared by the record parser and serializer:
//! splitting on a delimiter and decimal numerals.

use vstd::prelude::*;

verus! {

/// Index of the first occurrence of `d` in `s`, or `s.len()` if absent.
pub open spec fn first_occurrence(s: Seq<char>, d: char) -> int
    decreases s.len(),
{
    if s.len() == 0 {
        0
    } else if s[0] == d {
        0
    } else {
        1 + first_occurrence(s.drop_first(), d)
    }
}

pub proof fn lemma_first_occurrence(s: Seq<char>, d: char)
    ensures
        0 <= first_occurrence(s, d) <= s.len(),
        forall|j: int| 0 <= j < first_occurrence(s, d) ==> s[j] != d,
        first_occurrence(s, d) < s.len() ==> s[first_occurrence(s, d)] == d,
    decreases s.len(),
{
    if s.len() > 0 && s[0] != d {
        lemma_first_occurrence(s.drop_first(), d);
        assert forall|j: int| 0 <= j < first_occurrence(s, d) implies s[j] != d by {
            if j > 0 {
                assert(s.drop_first()[j - 1] == s[j]);
            }
        }
    }
}

/// The fields of `s` delimited by `d`: splitting never drops characters and
/// always yields one more field than there are delimiters.
pub open spec fn split_on(s: Seq<char>, d: char) -> Seq<Seq<char>>
    decreases s.len(),
{
    let i = first_occurrence(s, d);
    if 0 <= i < s.len() {
        seq![s.take(i)] + split_on(s.skip(i + 1), d)
    } else {
        seq![s]
    }
}

/// A delimiter-free sequence is a single field.
pub proof fn lemma_split_no_delim(s: Seq<char>, d: char)
    requires
        forall|j: int| 0 <= j < s.len() ==> s[j] != d,
    ensures
        split_on(s, d) == seq![s],
{
    lemma_first_occurrence(s, d);
}

/// Splitting at the first delimiter peels off the leading field.
pub proof fn lemma_split_at_delim(s: Seq<char>, d: char, k: int)
    requires
        0 <= k < s.len(),
        s[k] == d,
        forall|j: int| 0 <= j < k ==> s[j] != d,
    ensures
        split_on(s, d) == seq![s.take(k)] + split_on(s.skip(k + 1), d),
{
    lemma_first_occurrence(s, d);
    let i = first_occurrence(s, d);
    if i < k {
        assert(s[i] == d);
        assert(false);
    }
    if i > k {
        assert(s[k] != d);
        assert(false);
    }
}

/// Prepending a delimiter-free field and a delimiter prepends one field.
pub proof fn lemma_split_concat(a: Seq<char>, b: Seq<char>, d: char)
    requires
        forall|j: int| 0 <= j < a.len() ==> a[j] != d,
    ensures
        split_on(a + seq![d] + b, d) == seq![a] + split_on(b, d),
{
    let s = a + seq![d] + b;
    assert(s[a.len() as int] == d);
    lemma_split_at_delim(s, d, a.len() as int);
    assert(s.take(a.len() as int) =~= a);
    assert(s.skip(a.len() as int + 1) =~= b);
}

pub proof fn lemma_split_on_nonempty(s: Seq<char>, d: char)
    ensures
        split_on(s, d).len() >= 1,
{
}

/// A line with its trailing carriage return, if any, removed.
pub open spec fn strip_cr(l: Seq<char>) -> Seq<char> {
    if l.len() > 0 && l.last() == '\r' {
        l.drop_last()
    } else {
        l
    }
}

/// The lines of `data`: newline-separated, a trailing newline ends the last
/// line rather than opening an empty one, and a carriage return before a
/// newline is dropped.
pub open spec fn lines_of(data: Seq<char>) -> Seq<Seq<char>> {
    if data.len() == 0 {
        Seq::empty()
    } else {
        let parts = split_on(data, '\n');
        let kept = if parts.last().len() == 0 {
            parts.drop_last()
        } else {
            parts
        };
        kept.map_values(|l: Seq<char>| strip_cr(l))
    }
}

/// Splits `data` into lines.
pub fn split_lines(data: &str) -> (r: Vec<String>)
    ensures
        r.deep_view() == lines_of(data@),
{
    let mut out: Vec<String> = Vec::new();
    if data.unicode_len() == 0 {
        proof {
            assert(out.deep_view() =~= lines_of(data@));
        }
        return out;
    }
    let mut parts = split_str(data, '\n');
    proof {
        lemma_split_on_nonempty(data@, '\n');
        assert(parts@.len() == parts.deep_view().len());
    }
    let plen = parts.len();
    if parts[plen - 1].unicode_len() == 0 {
        let ghost dv0 = parts.deep_view();
        let _ = parts.pop();
        proof {
            assert(parts.deep_view() =~= dv0.drop_last());
        }
    }
    let ghost kept = parts.deep_view();
    proof {
        assert(lines_of(data@).len() == kept.len());
        assert(forall|j: int| 0 <= j < kept.len()
            ==> lines_of(data@)[j] == strip_cr(#[trigger] kept[j]));
    }
    let n = parts.len();
    let mut i: usize = 0;
    while i < n
        invariant
            i <= n,
            n == kept.len(),
            parts.deep_view() == kept,
            parts@.len() == n,
            out.deep_view().len() == i,
            forall|j: int| 0 <= j < i ==> out.deep_view()[j] == strip_cr(#[trigger] kept[j]),
        decreases n - i,
    {
        let l = &parts[i];
        let ln = l.unicode_len();
        let ghost dv0 = out.deep_view();
        if ln > 0 && l.as_str().get_char(ln - 1) == '\r' {
            out.push(String::from_str(l.as_str().substring_char(0, ln - 1)));
            proof {
                assert(kept[i as int].drop_last() =~= kept[i as int].subrange(0, ln - 1));
                assert(out.deep_view() =~= dv0.push(strip_cr(kept[i as int])));
            }
        } else {
            out.push(l.clone());
            proof {
                assert(out.deep_view() =~= dv0.push(strip_cr(kept[i as int])));
            }
        }
        i += 1;
    }
    proof {
        assert(out.deep_view() =~= lines_of(data@));
    }
    out
}

pub open spec fn is_digit(c: char) -> bool {
    48 <= c as u32 <= 57
}

pub open spec fn all_digits(s: Seq<char>) -> bool {
    forall|j: int| 0 <= j < s.len() ==> is_digit(#[trigger] s[j])
}

/// Numeric value of a digit string read in base ten.
pub open spec fn dec_val(s: Seq<char>) -> int
    decreases s.len(),
{
    if s.len() == 0 {
        0
    } else {
        dec_val(s.drop_last()) * 10 + (s.last() as u32 - 48)
    }
}

/// What it means for a field to parse as a `u32`: one or more digits whose
/// value fits, and nothing else.
pub open spec fn parse_u32_spec(s: Seq<char>) -> Option<u32> {
    if s.len() > 0 && all_digits(s) && dec_val(s) <= u32::MAX {
        Some(dec_val(s) as u32)
    } else {
        None
    }
}

pub open spec fn digit_char(d: int) -> char {
    ((d + 48) as u8) as char
}

/// The canonical decimal numeral of a non-negative integer.
pub open spec fn dec_digits(n: int) -> Seq<char>
    decreases n,
{
    if n < 10 {
        seq![digit_char(n)]
    } else {
        dec_digits(n / 10).push(digit_char(n % 10))
    }
}

pub proof fn lemma_dec_val_nonneg(s: Seq<char>)
    requires
        all_digits(s),
    ensures
        dec_val(s) >= 0,
    decreases s.len(),
{
    if s.len() > 0 {
        assert(all_digits(s.drop_last()));
        lemma_dec_val_nonneg(s.drop_last());
    }
}

/// Extending a digit string never shrinks its value.
pub proof fn lemma_dec_val_prefix_le(s: Seq<char>, k: int)
    requires
        all_digits(s),
        0 <= k <= s.len(),
    ensures
        dec_val(s.take(k)) <= dec_val(s),
    decreases s.len() - k,
{
    if k < s.len() {
        let t = s.take(k + 1);
        assert(t.drop_last() =~= s.take(k));
        assert(all_digits(s.take(k)));
        lemma_dec_val_nonneg(s.take(k));
        assert(dec_val(t) == dec_val(s.take(k)) * 10 + (t.last() as u32 - 48));
        lemma_dec_val_prefix_le(s, k + 1);
    } else {
        assert(s.take(k) =~= s);
    }
}

/// The numeral of `n` is a non-empty digit string that reads back as `n`.
pub proof fn lemma_dec_digits_val(n: int)
    requires
        n >= 0,
    ensures
        dec_digits(n).len() >= 1,
        all_digits(dec_digits(n)),
        dec_val(dec_digits(n)) == n,
    decreases n,
{
    if n < 10 {
        let s = dec_digits(n);
        assert(s.drop_last() =~= Seq::<char>::empty());
        assert(dec_val(s.drop_last()) == 0);
        assert(s.last() == digit_char(n));
        assert(digit_char(n) as u32 == n + 48);
        assert(dec_val(s) == dec_val(s.drop_last()) * 10 + (s.last() as u32 - 48));
    } else {
        lemma_dec_digits_val(n / 10);
        let s = dec_digits(n);
        assert(s.drop_last() =~= dec_digits(n / 10));
        assert(digit_char(n % 10) as u32 == n % 10 + 48);
        assert(dec_val(s) == (n / 10) * 10 + n % 10);
        assert((n / 10) * 10 + n % 10 == n) by (nonlinear_arith);
        assert forall|j: int| 0 <= j < s.len() implies is_digit(#[trigger] s[j]) by {
            if j < s.len() - 1 {
                assert(s[j] == dec_digits(n / 10)[j]);
            }
        }
    }
}

/// Character-wise string comparison.
pub fn str_eq(a: &str, b: &str) -> (r: bool)
    ensures
        r == (a@ == b@),
{
    let n = a.unicode_len();
    if n != b.unicode_len() {
        return false;
    }
    let mut i: usize = 0;
    while i < n
        invariant
            i <= n,
            n == a@.len(),
            n == b@.len(),
            forall|j: int| 0 <= j < i ==> a@[j] == b@[j],
        decreases n - i,
    {
        if a.get_char(i) != b.get_char(i) {
            return false;
        }
        i += 1;
    }
    proof {
        assert(a@ =~= b@);
    }
    true
}

/// Splits `s` into the fields delimited by `d`.
pub fn split_str(s: &str, d: char) -> (r: Vec<String>)
    ensures
        r.deep_view() == split_on(s@, d),
{
    let n = s.unicode_len();
    let mut r: Vec<String> = Vec::new();
    proof {
        assert(s@.skip(0) =~= s@);
        assert(r.deep_view() =~= Seq::<Seq<char>>::empty());
        assert(r.deep_view() + split_on(s@, d) =~= split_on(s@, d));
    }
    let mut start: usize = 0;
    let mut i: usize = 0;
    while i < n
        invariant
            start <= i <= n,
            n == s@.len(),
            forall|j: int| start <= j < i ==> s@[j] != d,
            split_on(s@, d) == r.deep_view() + split_on(s@.skip(start as int), d),
        decreases n - i,
    {
        if s.get_char(i) == d {
            let ghost rest = s@.skip(start as int);
            let field = String::from_str(s.substring_char(start, i));
            proof {
                assert(rest[i - start] == s@[i as int]);
                assert forall|j: int| 0 <= j < i - start implies rest[j] != d by {
                    assert(rest[j] == s@[start + j]);
                }
                lemma_split_at_delim(rest, d, i - start);
                assert(rest.take(i - start) =~= s@.subrange(start as int, i as int));
                assert(rest.skip(i - start + 1) =~= s@.skip(i as int + 1));
            }
            let ghost dv0 = r.deep_view();
            r.push(field);
            proof {
                assert(r.deep_view() =~= dv0.push(s@.subrange(start as int, i as int)));
                assert(split_on(s@, d) =~= r.deep_view() + split_on(s@.skip(i as int + 1), d));
            }
            start = i + 1;
        }
        i += 1;
    }
    let last = String::from_str(s.substring_char(start, n));
    proof {
        let ghost rest = s@.skip(start as int);
        assert forall|j: int| 0 <= j < rest.len() implies rest[j] != d by {
            assert(rest[j] == s@[start + j]);
        }
        lemma_split_no_delim(rest, d);
        assert(rest =~= s@.subrange(start as int, n as int));
    }
    let ghost dv0 = r.deep_view();
    r.push(last);
    proof {
        assert(r.deep_view() =~= dv0.push(s@.subrange(start as int, n as int)));
        assert(split_on(s@, d) =~= r.deep_view());
    }
    r
}

/// Parses a decimal `u32`, rejecting empty input, non-digits and overflow.
pub fn parse_u32(s: &str) -> (r: Option<u32>)
    ensures
        r == parse_u32_spec(s@),
{
    let n = s.unicode_len();
    if n == 0 {
        return None;
    }
    let mut acc: u32 = 0;
    let mut i: usize = 0;
    while i < n
        invariant
            i <= n,
            n == s@.len(),
            n > 0,
            all_digits(s@.take(i as int)),
            acc == dec_val(s@.take(i as int)),
        decreases n - i,
    {
        let c = s.get_char(i);
        let v = c as u32;
        if v < 48 || v > 57 {
            assert(!is_digit(s@[i as int]));
            return None;
        }
        proof {
            assert(s@.take(i as int + 1).drop_last() =~= s@.take(i as int));
            assert(s@.take(i as int + 1).last() == s@[i as int]);
        }
        let stepped = match acc.checked_mul(10) {
            Some(m) => m.checked_add(v - 48),
            None => None,
        };
        match stepped {
            Some(a) => {
                acc = a;
            },
            None => {
                proof {
                    assert(dec_val(s@.take(i as int + 1)) > u32::MAX);
                    if all_digits(s@) {
                        lemma_dec_val_prefix_le(s@, i as int + 1);
                    }
                }
                return None;
            },
        }
        i += 1;
    }
    proof {
        assert(s@.take(n as int) =~= s@);
    }
    Some(acc)
}

/// The one-character string for a single decimal digit.
fn digit_str(d: u32) -> (r: &'static str)
    requires
        d < 10,
    ensures
        r@ == seq![digit_char(d as int)],
{
    match d {
        0 => {
            proof {
                reveal_strlit("0");
                assert("0"@ =~= seq![digit_char(0)]);
            }
            "0"
        },
        1 => {
            proof {
                reveal_strlit("1");
                assert("1"@ =~= seq![digit_char(1)]);
            }
            "1"
        },
        2 => {
            proof {
                reveal_strlit("2");
                assert("2"@ =~= seq![digit_char(2)]);
            }
            "2"
        },
        3 => {
            proof {
                reveal_strlit("3");
                assert("3"@ =~= seq![digit_char(3)]);
            }
            "3"
        },
        4 => {
            proof {
                reveal_strlit("4");
                assert("4"@ =~= seq![digit_char(4)]);
            }
            "4"
        },
        5 => {
            proof {
                reveal_strlit("5");
                assert("5"@ =~= seq![digit_char(5)]);
            }
            "5"
        },
        6 => {
            proof {
                reveal_strlit("6");
                assert("6"@ =~= seq![digit_char(6)]);
            }
            "6"
        },
        7 => {
            proof {
                reveal_strlit("7");
                assert("7"@ =~= seq![digit_char(7)]);
            }
            "7"
        },
        8 => {
            proof {
                reveal_strlit("8");
                assert("8"@ =~= seq![digit_char(8)]);
            }
            "8"
        },
        _ => {
            proof {
                reveal_strlit("9");
                assert("9"@ =~= seq![digit_char(9)]);
            }
            "9"
        },
    }
}

/// Renders `n` as its decimal numeral.
pub fn u32_to_string(n: u32) -> (r: String)
    ensures
        r@ == dec_digits(n as int),
    decreases n,
{
    if n < 10 {
        String::from_str(digit_str(n))
    } else {
        let mut r = u32_to_string(n / 10);
        r.append(digit_str(n % 10));
        proof {
            assert(r@ =~= dec_digits(n as int / 10).push(digit_char(n as int % 10)));
        }
        r
    }
}

} // verus!
