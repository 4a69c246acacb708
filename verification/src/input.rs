//! Trimmed input lines and decimal numerals: the grammar of a selection
//! number (an optional leading plus sign, then digits), a verified parser,
//! and the verified renderer that labels the rows a screen shows.

use vstd::prelude::*;

verus! {

/// `c` is an ASCII decimal digit.
pub open spec fn is_digit(c: char) -> bool {
    '0' as int <= c as int && c as int <= '9' as int
}

/// The numeric value of one decimal digit.
pub open spec fn digit_val(c: char) -> nat {
    (c as int - '0' as int) as nat
}

/// Every character of `s` is a decimal digit.
pub open spec fn all_digits(s: Seq<char>) -> bool {
    forall|i: int| 0 <= i < s.len() ==> is_digit(s[i])
}

/// The value of a digit string read as a decimal numeral.
pub open spec fn digits_value(s: Seq<char>) -> nat
    decreases s.len(),
{
    if s.len() == 0 {
        0
    } else {
        digits_value(s.drop_last()) * 10 + digit_val(s.last())
    }
}

/// The digit part of an input line: what follows an optional leading plus sign.
pub open spec fn digit_body(s: Seq<char>) -> Seq<char> {
    if s.len() > 0 && s[0] == '+' {
        s.drop_first()
    } else {
        s
    }
}

/// The line is a decimal numeral whose value fits in `usize`.
pub open spec fn parseable(s: Seq<char>) -> bool {
    &&& digit_body(s).len() > 0
    &&& all_digits(digit_body(s))
    &&& digits_value(digit_body(s)) <= usize::MAX
}

/// The value of a parseable line.
pub open spec fn parsed_value(s: Seq<char>) -> nat {
    digits_value(digit_body(s))
}

/// Reading one more digit multiplies the value so far by ten and adds it.
proof fn lemma_digits_value_take_step(s: Seq<char>, i: int)
    requires
        0 <= i < s.len(),
    ensures
        digits_value(s.take(i + 1)) == digits_value(s.take(i)) * 10 + digit_val(s[i]),
{
    assert(s.take(i + 1).drop_last() =~= s.take(i));
    assert(s.take(i + 1).last() == s[i]);
}

/// A numeral's value is at least the value of any of its prefixes.
proof fn lemma_digits_value_prefix(s: Seq<char>, i: int)
    requires
        0 <= i <= s.len(),
    ensures
        digits_value(s.take(i)) <= digits_value(s),
    decreases s.len() - i,
{
    if i == s.len() {
        assert(s.take(i) =~= s);
    } else {
        lemma_digits_value_take_step(s, i);
        lemma_digits_value_prefix(s, i + 1);
    }
}

/// The character for one decimal digit.
pub open spec fn digit_char(d: int) -> char {
    if d == 0 {
        '0'
    } else if d == 1 {
        '1'
    } else if d == 2 {
        '2'
    } else if d == 3 {
        '3'
    } else if d == 4 {
        '4'
    } else if d == 5 {
        '5'
    } else if d == 6 {
        '6'
    } else if d == 7 {
        '7'
    } else if d == 8 {
        '8'
    } else {
        '9'
    }
}

/// The decimal numeral of `n`, most significant digit first, without leading
/// zeroes.
pub open spec fn numeral_of(n: nat) -> Seq<char>
    decreases n,
{
    if n < 10 {
        seq![digit_char(n as int)]
    } else {
        numeral_of(n / 10).push(digit_char((n % 10) as int))
    }
}

/// The decimal numeral of `n` reads back as `n`: it is all digits, it has no
/// leading zero, and its value is `n`.
pub proof fn lemma_numeral_value(n: nat)
    ensures
        numeral_of(n).len() > 0,
        all_digits(numeral_of(n)),
        digits_value(numeral_of(n)) == n,
        numeral_of(n)[0] != '0' || numeral_of(n).len() == 1,
    decreases n,
{
    if n < 10 {
        let s = numeral_of(n);
        assert(digits_value(Seq::<char>::empty()) == 0);
        assert(s.drop_last() =~= Seq::<char>::empty());
        assert(digits_value(s.drop_last()) == 0);
        assert(s.last() == s[0]);
        assert(digits_value(s) == digit_val(s[0]));
    } else {
        lemma_numeral_value(n / 10);
        let u = numeral_of(n / 10);
        let s = numeral_of(n);
        assert(s.drop_last() =~= u);
        assert(s.last() == digit_char((n % 10) as int));
        assert(digits_value(s) == digits_value(u) * 10 + digit_val(s.last()));
        assert(digit_val(digit_char((n % 10) as int)) == n % 10);
        assert(s[0] == u[0]);
        if n / 10 < 10 {
            assert(u == seq![digit_char((n / 10) as int)]);
            assert(n / 10 >= 1);
            assert(u[0] == digit_char((n / 10) as int));
            assert(u[0] != '0');
        } else {
            lemma_numeral_value(n / 10 / 10);
            assert(u == numeral_of(n / 10 / 10).push(digit_char((n / 10 % 10) as int)));
            assert(u.len() >= 2);
        }
        assert(s[0] != '0');
    }
}

/// Law: the rendered numeral of any number a screen can show parses back to
/// that same number.
pub proof fn lemma_numeral_round_trip(n: nat)
    requires
        n <= usize::MAX,
    ensures
        parseable(numeral_of(n)),
        parsed_value(numeral_of(n)) == n,
{
    lemma_numeral_value(n);
    let s = numeral_of(n);
    assert(is_digit(s[0]));
    assert(s[0] != '+');
    assert(digit_body(s) == s);
}

/// The digit character for `d`, as a string slice.
pub fn digit_str(d: usize) -> (r: &'static str)
    requires
        d <= 9,
    ensures
        r@ == seq![digit_char(d as int)],
{
    if d == 0 {
        proof {
            reveal_strlit("0");
            assert("0"@ =~= seq!['0']);
        }
        "0"
    } else if d == 1 {
        proof {
            reveal_strlit("1");
            assert("1"@ =~= seq!['1']);
        }
        "1"
    } else if d == 2 {
        proof {
            reveal_strlit("2");
            assert("2"@ =~= seq!['2']);
        }
        "2"
    } else if d == 3 {
        proof {
            reveal_strlit("3");
            assert("3"@ =~= seq!['3']);
        }
        "3"
    } else if d == 4 {
        proof {
            reveal_strlit("4");
            assert("4"@ =~= seq!['4']);
        }
        "4"
    } else if d == 5 {
        proof {
            reveal_strlit("5");
            assert("5"@ =~= seq!['5']);
        }
        "5"
    } else if d == 6 {
        proof {
            reveal_strlit("6");
            assert("6"@ =~= seq!['6']);
        }
        "6"
    } else if d == 7 {
        proof {
            reveal_strlit("7");
            assert("7"@ =~= seq!['7']);
        }
        "7"
    } else if d == 8 {
        proof {
            reveal_strlit("8");
            assert("8"@ =~= seq!['8']);
        }
        "8"
    } else {
        proof {
            reveal_strlit("9");
            assert("9"@ =~= seq!['9']);
        }
        "9"
    }
}

/// Renders `n` as its decimal numeral.
pub fn usize_to_decimal(n: usize) -> (r: String)
    ensures
        r@ == numeral_of(n as nat),
{
    if n == 0 {
        let r = digit_str(0).to_owned();
        return r;
    }
    let mut acc = String::new();
    let mut m: usize = n;
    while m > 0
        invariant
            m > 0 ==> numeral_of(n as nat) == numeral_of(m as nat) + acc@,
            m == 0 ==> numeral_of(n as nat) == acc@,
        decreases m,
    {
        let d: usize = m % 10;
        let next: usize = m / 10;
        let mut piece = digit_str(d).to_owned();
        piece.append(acc.as_str());
        proof {
            if next > 0 {
                assert(m >= 10);
                assert(numeral_of(next as nat).push(digit_char(d as int)) =~= numeral_of(
                    next as nat,
                ) + seq![digit_char(d as int)]);
                assert(numeral_of(next as nat) + piece@ =~= numeral_of(m as nat) + acc@);
            } else {
                assert(m < 10);
                assert(numeral_of(m as nat) == seq![digit_char(d as int)]);
                assert(piece@ =~= numeral_of(m as nat) + acc@);
            }
        }
        acc = piece;
        m = next;
    }
    acc
}

/// Whether the line consists of exactly the one character `c`.
pub fn eq_char(s: &str, c: char) -> (r: bool)
    ensures
        r == (s@ == seq![c]),
{
    if s.unicode_len() != 1 {
        proof {
            if s@ == seq![c] {
                assert(s@.len() == 1);
            }
        }
        return false;
    }
    let c0 = s.get_char(0);
    if c0 == c {
        proof {
            assert(s@ =~= seq![c]);
        }
        true
    } else {
        proof {
            if s@ == seq![c] {
                assert(s@[0] == c);
            }
        }
        false
    }
}

/// Whether the line is empty.
pub fn is_empty_line(s: &str) -> (r: bool)
    ensures
        r == (s@.len() == 0),
{
    s.unicode_len() == 0
}

/// Parses one trimmed input line as a decimal number: an optional leading
/// plus sign, then at least one digit, with a value that fits in `usize`.
/// Any other line, and any value too large, yields `None`.
pub fn parse_usize(s: &str) -> (r: Option<usize>)
    ensures
        parseable(s@) ==> r == Some(parsed_value(s@) as usize),
        !parseable(s@) ==> r is None,
{
    let len = s.unicode_len();
    if len == 0 {
        return None;
    }
    let first = s.get_char(0);
    let start: usize = if first == '+' {
        1
    } else {
        0
    };
    let ghost body: Seq<char> = digit_body(s@);
    proof {
        if start == 1 {
            assert(body =~= s@.skip(1));
        } else {
            assert(body =~= s@.skip(0));
        }
    }
    if start == len {
        assert(body.len() == 0);
        return None;
    }
    let mut acc: usize = 0;
    let mut i: usize = start;
    proof {
        assert(body.take(0) =~= Seq::<char>::empty());
    }
    loop
        invariant
            start <= i <= len,
            start <= 1,
            start < len,
            len == s@.len(),
            body == digit_body(s@),
            body =~= s@.skip(start as int),
            forall|j: int| 0 <= j < i - start ==> is_digit(body[j]),
            acc as nat == digits_value(body.take(i - start)),
        decreases len - i,
    {
        if i == len {
            proof {
                assert(body.take(i - start) =~= body);
            }
            return Some(acc);
        }
        let c = s.get_char(i);
        assert(body[i - start] == s@[i as int]);
        let cv = c as u32;
        proof {
            assert(c as int == c as u32 as int);
        }
        if cv < '0' as u32 || cv > '9' as u32 {
            assert(!is_digit(body[i - start]));
            return None;
        }
        let d: usize = (cv - '0' as u32) as usize;
        proof {
            lemma_digits_value_take_step(body, i - start);
        }
        let step_ok: Option<usize> = match acc.checked_mul(10) {
            Some(m) => m.checked_add(d),
            None => None,
        };
        match step_ok {
            Some(v) => {
                acc = v;
            },
            None => {
                proof {
                    assert(digits_value(body.take(i - start + 1)) > usize::MAX);
                    lemma_digits_value_prefix(body, i - start + 1);
                }
                return None;
            },
        }
        i = i + 1;
    }
}

} // verus!
