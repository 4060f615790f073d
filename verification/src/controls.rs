//! The evolve-count input field of the control surface: the one control
//! whose state carries logic — a decimal text that must agree with the
//! parsed count handed to the engine's Evolve command.

use vstd::arithmetic::div_mod::lemma_fundamental_div_mod;
use vstd::prelude::*;
use vstd::string::*;

verus! {

/// Whether `c` is a decimal digit.
pub open spec fn is_digit(c: char) -> bool {
    '0' as u32 <= c as u32 <= '9' as u32
}

/// The numeric value of the digit `c`.
pub open spec fn digit_value(c: char) -> int {
    c as u32 - '0' as u32
}

/// Whether `s` is all decimal digits.
pub open spec fn all_digits(s: Seq<char>) -> bool {
    forall|i: int| 0 <= i < s.len() ==> is_digit(#[trigger] s[i])
}

/// The number the digit string `s` denotes, most significant digit first.
pub open spec fn digits_value(s: Seq<char>) -> int
    decreases s.len(),
{
    if s.len() == 0 {
        0
    } else {
        digits_value(s.drop_last()) * 10 + digit_value(s.last())
    }
}

/// The digits of `s`: everything after one optional leading plus sign.
pub open spec fn digits_of(s: Seq<char>) -> Seq<char> {
    if s.len() > 0 && s[0] == '+' {
        s.drop_first()
    } else {
        s
    }
}

/// What parsing `s` as a count yields: its value when, after an optional
/// leading plus sign, `s` is one or more decimal digits denoting a number
/// that fits the type; nothing otherwise.
pub open spec fn parse_spec(s: Seq<char>) -> Option<usize> {
    let d = digits_of(s);
    if d.len() > 0 && all_digits(d) && digits_value(d) <= usize::MAX {
        Some(digits_value(d) as usize)
    } else {
        None
    }
}

/// The digit character for `d` in `0..10`.
pub open spec fn decimal_digit(d: int) -> char {
    if d == 0 {
        '0'
    } else if d == 1 {
        '1'
    } else if d == 2 {
        '2'
    } else if d == 3 {
        '3'
    } else if d == 4 {
        '4'
    } else if d == 5 {
        '5'
    } else if d == 6 {
        '6'
    } else if d == 7 {
        '7'
    } else if d == 8 {
        '8'
    } else {
        '9'
    }
}

/// The canonical decimal text of `n`: no sign, no leading zeros.
pub open spec fn decimal_of(n: int) -> Seq<char>
    decreases n,
{
    if n < 10 {
        seq![decimal_digit(n)]
    } else {
        decimal_of(n / 10).push(decimal_digit(n % 10))
    }
}

proof fn lemma_digits_value_nonneg(s: Seq<char>)
    requires
        all_digits(s),
    ensures
        digits_value(s) >= 0,
    decreases s.len(),
{
    if s.len() > 0 {
        assert(all_digits(s.drop_last()));
        lemma_digits_value_nonneg(s.drop_last());
    }
}

/// A digit string denotes at least as much as any of its prefixes.
proof fn lemma_digits_prefix_le(s: Seq<char>, k: int)
    requires
        all_digits(s),
        0 <= k <= s.len(),
    ensures
        digits_value(s.take(k)) <= digits_value(s),
    decreases s.len(),
{
    lemma_digits_value_nonneg(s);
    if k < s.len() {
        assert(all_digits(s.drop_last()));
        assert(s.take(k) =~= s.drop_last().take(k));
        lemma_digits_prefix_le(s.drop_last(), k);
        lemma_digits_value_nonneg(s.drop_last());
    } else {
        assert(s.take(k) =~= s);
    }
}

/// Parses a count the way the standard numeric parser does: one optional
/// leading plus sign, then one or more decimal digits whose value fits.
pub fn parse_count(s: &str) -> (parsed: Option<usize>)
    ensures
        parsed == parse_spec(s@),
{
    let len = s.unicode_len();
    let start: usize = if len > 0 && s.get_char(0) == '+' {
        1
    } else {
        0
    };
    let ghost d = digits_of(s@);
    proof {
        assert(d.len() == len - start);
        assert(forall|j: int| 0 <= j < d.len() ==> d[j] == s@[start + j]);
    }
    if start >= len {
        return None;
    }
    let mut value: usize = 0;
    let mut i: usize = start;
    while i < len
        invariant
            start <= i <= len,
            len == s@.len(),
            start <= 1,
            d == digits_of(s@),
            d.len() == len - start,
            forall|j: int| 0 <= j < d.len() ==> d[j] == s@[start + j],
            all_digits(d.take(i - start)),
            value == digits_value(d.take(i - start)),
        decreases len - i,
    {
        let c = s.get_char(i);
        let code = c as u32;
        proof {
            assert(c == d[i - start]);
        }
        if code < 48 || code > 57 {
            proof {
                assert(!is_digit(c));
                assert(!all_digits(d));
            }
            return None;
        }
        let digit = (code - 48) as usize;
        proof {
            assert(is_digit(c));
            assert(digit == digit_value(c));
            assert(d.take(i - start + 1).drop_last() =~= d.take(i - start));
            assert(d.take(i - start + 1).last() == c);
            assert(all_digits(d.take(i - start + 1)));
            assert(digits_value(d.take(i - start + 1)) == value * 10 + digit);
        }
        if value > (usize::MAX - digit) / 10 {
            proof {
                lemma_fundamental_div_mod(usize::MAX - digit, 10);
                assert(value * 10 + digit > usize::MAX);
                if all_digits(d) {
                    lemma_digits_prefix_le(d, i - start + 1);
                    assert(digits_value(d) > usize::MAX);
                }
            }
            return None;
        }
        proof {
            lemma_fundamental_div_mod(usize::MAX - digit, 10);
            assert(value * 10 + digit <= usize::MAX);
        }
        value = value * 10 + digit;
        i = i + 1;
    }
    proof {
        assert(d.take(i - start) =~= d);
    }
    Some(value)
}

/// The digit character for `d` in `0..10`, as a one-character text.
fn digit_str(d: usize) -> (s: &'static str)
    requires
        d < 10,
    ensures
        s@ == seq![decimal_digit(d as int)],
{
    match d {
        0 => {
            proof {
                reveal_strlit("0");
                assert("0"@ =~= seq![decimal_digit(0)]);
            }
            "0"
        },
        1 => {
            proof {
                reveal_strlit("1");
                assert("1"@ =~= seq![decimal_digit(1)]);
            }
            "1"
        },
        2 => {
            proof {
                reveal_strlit("2");
                assert("2"@ =~= seq![decimal_digit(2)]);
            }
            "2"
        },
        3 => {
            proof {
                reveal_strlit("3");
                assert("3"@ =~= seq![decimal_digit(3)]);
            }
            "3"
        },
        4 => {
            proof {
                reveal_strlit("4");
                assert("4"@ =~= seq![decimal_digit(4)]);
            }
            "4"
        },
        5 => {
            proof {
                reveal_strlit("5");
                assert("5"@ =~= seq![decimal_digit(5)]);
            }
            "5"
        },
        6 => {
            proof {
                reveal_strlit("6");
                assert("6"@ =~= seq![decimal_digit(6)]);
            }
            "6"
        },
        7 => {
            proof {
                reveal_strlit("7");
                assert("7"@ =~= seq![decimal_digit(7)]);
            }
            "7"
        },
        8 => {
            proof {
                reveal_strlit("8");
                assert("8"@ =~= seq![decimal_digit(8)]);
            }
            "8"
        },
        _ => {
            proof {
                reveal_strlit("9");
                assert("9"@ =~= seq![decimal_digit(9)]);
            }
            "9"
        },
    }
}

/// The canonical decimal text of `n`.
pub fn format_count(n: usize) -> (text: String)
    ensures
        text@ == decimal_of(n as int),
    decreases n,
{
    if n < 10 {
        String::from_str(digit_str(n))
    } else {
        let mut text = format_count(n / 10);
        text.append(digit_str(n % 10));
        proof {
            assert(text@ =~= decimal_of(n as int / 10).push(decimal_digit(n as int % 10)));
        }
        text
    }
}

/// Law: formatting then parsing gives the number back — the canonical text
/// is signless, nonempty, all digits, and denotes exactly `n`.
pub proof fn lemma_decimal_round_trip(n: int)
    requires
        0 <= n <= usize::MAX,
    ensures
        all_digits(decimal_of(n)),
        decimal_of(n).len() >= 1,
        decimal_of(n)[0] != '+',
        digits_value(decimal_of(n)) == n,
        parse_spec(decimal_of(n)) == Some(n as usize),
    decreases n,
{
    if n < 10 {
        let s = decimal_of(n);
        assert(s =~= seq![decimal_digit(n)]);
        assert(s.drop_last() =~= Seq::<char>::empty());
        assert(s.last() == decimal_digit(n));
        assert(digits_value(Seq::<char>::empty()) == 0);
        assert(digits_value(s) == digit_value(decimal_digit(n)));
    } else {
        lemma_decimal_round_trip(n / 10);
        let s = decimal_of(n);
        let head = decimal_of(n / 10);
        assert(s == head.push(decimal_digit(n % 10)));
        assert(s.drop_last() =~= head);
        assert(s.last() == decimal_digit(n % 10));
        assert(digit_value(decimal_digit(n % 10)) == n % 10);
        lemma_fundamental_div_mod(n, 10);
        assert(digits_value(s) == (n / 10) * 10 + n % 10);
        assert(all_digits(s)) by {
            assert(forall|i: int|
                0 <= i < s.len() ==> s[i] == (if i < head.len() {
                    head[i]
                } else {
                    decimal_digit(n % 10)
                }));
        }
        assert(s[0] == head[0]);
    }
}

/// The evolve-count input field: the displayed text and the count it
/// denotes, kept consistent by `update`.
pub struct InputField {
    pub value: usize,
    pub text: String,
}

impl InputField {
    /// A field showing `initial` in canonical decimal.
    pub fn new(initial: usize) -> (field: InputField)
        ensures
            field.value == initial,
            field.text@ == decimal_of(initial as int),
    {
        InputField { value: initial, text: format_count(initial) }
    }

    /// Digests one edit of the field's text: a parsable count is adopted and
    /// echoed back in canonical decimal; anything else resets the count to
    /// zero and leaves the text as typed.
    pub fn update(&mut self, input: String)
        ensures
            parse_spec(input@) matches Some(v) ==> final(self).value == v && final(self).text@
                == decimal_of(v as int),
            parse_spec(input@) is None ==> final(self).value == 0 && final(self).text@ == input@,
    {
        match parse_count(input.as_str()) {
            Some(count) => {
                self.value = count;
                self.text = format_count(count);
            },
            None => {
                self.value = 0;
                self.text = input;
            },
        }
    }
}

} // verus!
