use vstd::prelude::*;
use vstd::string::{StrSliceExecFns, StringExecFns};

use crate::ticket::TicketError;

verus! {

/// The character for one decimal digit.
pub open spec fn digit_char(d: nat) -> char
    recommends
        d < 10,
{
    if d == 0 {
        '0'
    } else if d == 1 {
        '1'
    } else if d == 2 {
        '2'
    } else if d == 3 {
        '3'
    } else if d == 4 {
        '4'
    } else if d == 5 {
        '5'
    } else if d == 6 {
        '6'
    } else if d == 7 {
        '7'
    } else if d == 8 {
        '8'
    } else {
        '9'
    }
}

/// The decimal digits of `n`, most significant first, with no leading zeros
/// (zero itself is the single digit `0`).
pub open spec fn dec_seq(n: nat) -> Seq<char>
    decreases n,
{
    if n < 10 {
        seq![digit_char(n)]
    } else {
        dec_seq(n / 10).push(digit_char(n % 10))
    }
}

pub open spec fn is_digit(c: char) -> bool {
    '0' as int <= c as int && c as int <= '9' as int
}

pub open spec fn digit_val(c: char) -> nat
    recommends
        is_digit(c),
{
    (c as int - '0' as int) as nat
}

pub open spec fn all_digits(s: Seq<char>) -> bool {
    forall|i: int| 0 <= i < s.len() ==> is_digit(#[trigger] s[i])
}

/// The value of a digit string, most significant digit first.
pub open spec fn dec_val(s: Seq<char>) -> nat
    decreases s.len(),
{
    if s.len() == 0 {
        0
    } else {
        dec_val(s.drop_last()) * 10 + digit_val(s.last())
    }
}

/// Dropping characters from the end of a digit string never increases
/// its value.
pub proof fn lemma_dec_val_prefix(s: Seq<char>, j: int)
    requires
        0 <= j <= s.len(),
    ensures
        dec_val(s.subrange(0, j)) <= dec_val(s),
    decreases s.len(),
{
    if j == s.len() {
        assert(s.subrange(0, j) =~= s);
    } else {
        let t = s.drop_last();
        lemma_dec_val_prefix(t, j);
        assert(s.subrange(0, j) =~= t.subrange(0, j));
        assert(dec_val(t) * 10 >= dec_val(t));
    }
}

/// The decimal text of a number is made of digits, is never empty, and
/// starts with `0` only for zero itself.
pub proof fn lemma_dec_seq_digits(n: nat)
    ensures
        all_digits(dec_seq(n)),
        dec_seq(n).len() >= 1,
        dec_seq(n)[0] == '0' ==> n == 0,
        n == 0 ==> dec_seq(n) == seq!['0'],
    decreases n,
{
    if n < 10 {
        assert(is_digit(digit_char(n)));
    } else {
        lemma_dec_seq_digits(n / 10);
        assert(is_digit(digit_char(n % 10)));
        assert(dec_seq(n)[0] == dec_seq(n / 10)[0]);
        assert forall|i: int| 0 <= i < dec_seq(n).len() implies is_digit(#[trigger] dec_seq(n)[i]) by {
            if i < dec_seq(n / 10).len() {
                assert(dec_seq(n)[i] == dec_seq(n / 10)[i]);
            } else {
                assert(dec_seq(n)[i] == digit_char(n % 10));
            }
        }
    }
}

/// Reading the decimal text of a number back gives the number.
pub proof fn lemma_dec_val_dec_seq(n: nat)
    ensures
        dec_val(dec_seq(n)) == n,
    decreases n,
{
    if n < 10 {
        let t = seq![digit_char(n)];
        assert(dec_seq(n) == t);
        assert(t.drop_last() =~= Seq::<char>::empty());
        assert(t.last() == digit_char(n));
        assert(dec_val(Seq::<char>::empty()) == 0);
        assert(dec_val(t) == dec_val(t.drop_last()) * 10 + digit_val(t.last()));
        assert(digit_val(digit_char(n)) == n);
    } else {
        lemma_dec_val_dec_seq(n / 10);
        let t = dec_seq(n / 10).push(digit_char(n % 10));
        assert(dec_seq(n) == t);
        assert(t.drop_last() =~= dec_seq(n / 10));
        assert(t.last() == digit_char(n % 10));
        assert(dec_val(t) == dec_val(t.drop_last()) * 10 + digit_val(t.last()));
        assert(digit_val(digit_char(n % 10)) == n % 10);
        assert(n / 10 * 10 + n % 10 == n) by (nonlinear_arith);
    }
}

/// The number a request text denotes: an optional leading plus sign, then
/// one or more decimal digits, accepted only when the value fits in `u32`.
pub open spec fn parse_u32_spec(s: Seq<char>) -> Option<u32> {
    let body = if s.len() > 0 && s[0] == '+' {
        s.subrange(1, s.len() as int)
    } else {
        s
    };
    if body.len() > 0 && all_digits(body) && dec_val(body) <= u32::MAX {
        Some(dec_val(body) as u32)
    } else {
        None
    }
}

fn digit_str(d: u32) -> (r: &'static str)
    requires
        d < 10,
    ensures
        r@ == seq![digit_char(d as nat)],
{
    match d {
        0 => {
            proof {
                reveal_strlit("0");
                assert("0"@ =~= seq![digit_char(0)]);
            }
            "0"
        },
        1 => {
            proof {
                reveal_strlit("1");
                assert("1"@ =~= seq![digit_char(1)]);
            }
            "1"
        },
        2 => {
            proof {
                reveal_strlit("2");
                assert("2"@ =~= seq![digit_char(2)]);
            }
            "2"
        },
        3 => {
            proof {
                reveal_strlit("3");
                assert("3"@ =~= seq![digit_char(3)]);
            }
            "3"
        },
        4 => {
            proof {
                reveal_strlit("4");
                assert("4"@ =~= seq![digit_char(4)]);
            }
            "4"
        },
        5 => {
            proof {
                reveal_strlit("5");
                assert("5"@ =~= seq![digit_char(5)]);
            }
            "5"
        },
        6 => {
            proof {
                reveal_strlit("6");
                assert("6"@ =~= seq![digit_char(6)]);
            }
            "6"
        },
        7 => {
            proof {
                reveal_strlit("7");
                assert("7"@ =~= seq![digit_char(7)]);
            }
            "7"
        },
        8 => {
            proof {
                reveal_strlit("8");
                assert("8"@ =~= seq![digit_char(8)]);
            }
            "8"
        },
        _ => {
            proof {
                reveal_strlit("9");
                assert("9"@ =~= seq![digit_char(9)]);
            }
            "9"
        },
    }
}

/// The decimal text of `n`.
pub fn u32_to_string(n: u32) -> (r: String)
    ensures
        r@ == dec_seq(n as nat),
    decreases n,
{
    if n < 10 {
        String::from_str(digit_str(n))
    } else {
        proof {
            assert(n / 10 < n) by (nonlinear_arith)
                requires
                    n >= 10,
            ;
        }
        let mut s = u32_to_string(n / 10);
        s.append(digit_str(n % 10));
        proof {
            assert(s@ =~= dec_seq((n / 10) as nat).push(digit_char((n % 10) as nat)));
        }
        s
    }
}

/// Parses a request text as a ticket count or identifier.
pub fn parse_u32(s: &str) -> (r: Result<u32, TicketError>)
    ensures
        match r {
            Ok(v) => parse_u32_spec(s@) == Some(v),
            Err(e) => parse_u32_spec(s@) is None && e == TicketError::InvalidInput,
        },
{
    let len = s.unicode_len();
    let start: usize = if len > 0 && s.get_char(0) == '+' {
        1
    } else {
        0
    };
    let ghost body = if start == 1 {
        s@.subrange(1, s@.len() as int)
    } else {
        s@
    };
    if start >= len {
        assert(body.len() == 0);
        return Err(TicketError::InvalidInput);
    }
    let mut acc: u32 = 0;
    let mut i: usize = start;
    while i < len
        invariant
            start <= i <= len,
            len == s@.len(),
            start == 0 || start == 1,
            start == 1 ==> s@.len() > 0 && s@[0] == '+',
            start == 0 ==> !(s@.len() > 0 && s@[0] == '+'),
            body == (if start == 1 {
                s@.subrange(1, s@.len() as int)
            } else {
                s@
            }),
            all_digits(s@.subrange(start as int, i as int)),
            acc as nat == dec_val(s@.subrange(start as int, i as int)),
        decreases len - i,
    {
        let c = s.get_char(i);
        let u = c as u32;
        if u < 48 || u > 57 {
            proof {
                assert(body[i - start] == s@[i as int]);
                assert(!is_digit(s@[i as int]));
            }
            return Err(TicketError::InvalidInput);
        }
        let d = u - 48;
        proof {
            assert(is_digit(s@[i as int]));
            assert(digit_val(s@[i as int]) == d as nat);
        }
        if acc > (u32::MAX - d) / 10 {
            proof {
                let prefix = s@.subrange(start as int, i as int);
                let extended = s@.subrange(start as int, i + 1 as int);
                assert(extended =~= prefix.push(s@[i as int]));
                assert(extended.drop_last() =~= prefix);
                assert(dec_val(extended) == (acc as nat) * 10 + d as nat);
                assert((acc as nat) * 10 + d as nat > u32::MAX as nat) by (nonlinear_arith)
                    requires
                        acc > (u32::MAX - d) / 10,
                        d <= 9,
                ;
                assert(extended =~= body.subrange(0, i + 1 - start));
                lemma_dec_val_prefix(body, i + 1 - start);
                assert(dec_val(body) > u32::MAX as nat);
            }
            return Err(TicketError::InvalidInput);
        }
        proof {
            assert((acc as nat) * 10 + d as nat <= u32::MAX as nat) by (nonlinear_arith)
                requires
                    acc <= (u32::MAX - d) / 10,
                    d <= 9,
            ;
        }
        let ghost old_i = i as int;
        acc = acc * 10 + d;
        i = i + 1;
        proof {
            let prefix = s@.subrange(start as int, old_i);
            let extended = s@.subrange(start as int, i as int);
            assert(extended =~= prefix.push(s@[old_i]));
            assert(extended.drop_last() =~= prefix);
        }
    }
    proof {
        assert(body =~= s@.subrange(start as int, len as int));
    }
    Ok(acc)
}

/// Parsing the decimal text of a number gives the number back: identifier
/// and count round trips through request texts are lossless.
pub proof fn lemma_decimal_round_trip(n: u32)
    ensures
        parse_u32_spec(dec_seq(n as nat)) == Some(n),
{
    lemma_dec_seq_digits(n as nat);
    lemma_dec_val_dec_seq(n as nat);
    assert(is_digit(dec_seq(n as nat)[0]));
}

/// The store key under which ticket `id` is filed.
pub open spec fn key_of(id: u32) -> Seq<char> {
    "ticket-"@ + dec_seq(id as nat)
}

/// The store key text for ticket `id`.
pub fn ticket_key(id: u32) -> (r: String)
    ensures
        r@ == key_of(id),
{
    let mut s = String::from_str("ticket-");
    let digits = u32_to_string(id);
    s.append(digits.as_str());
    s
}

} // verus!
