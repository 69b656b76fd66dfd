use vstd::prelude::*;
use vstd::string::{StrSliceExecFns, StringExecFns};

use crate::text::{dec_seq, dec_val, digit_val, is_digit, lemma_dec_val_prefix, u32_to_string};
use crate::ticket::{MyValue, RecordModel, Ticket, TicketModel};

verus! {

// A versioned record travels to and from the storage medium as one
// structured text record with a `version` field and a `value` field; the
// decoder below accepts exactly what the encoder produces, and the round
// trip is proved lossless for every record.

/// How one character is written inside a quoted detail string: quotes and
/// backslashes are preceded by a backslash, everything else stands as is.
pub open spec fn esc_one(c: char) -> Seq<char> {
    if c == '"' || c == '\\' {
        seq!['\\', c]
    } else {
        seq![c]
    }
}

/// A detail string's characters, escaped for the quoted form.
pub open spec fn esc(s: Seq<char>) -> Seq<char>
    decreases s.len(),
{
    if s.len() == 0 {
        Seq::empty()
    } else {
        esc_one(s[0]) + esc(s.drop_first())
    }
}

pub open spec fn null_chars() -> Seq<char> {
    seq!['n', 'u', 'l', 'l']
}

pub open spec fn true_chars() -> Seq<char> {
    seq!['t', 'r', 'u', 'e']
}

pub open spec fn false_chars() -> Seq<char> {
    seq!['f', 'a', 'l', 's', 'e']
}

/// An absent detail is written `null`; a present one is quoted and escaped.
pub open spec fn enc_detail(d: Option<Seq<char>>) -> Seq<char> {
    match d {
        None => null_chars(),
        Some(s) => seq!['"'] + esc(s) + seq!['"'],
    }
}

pub open spec fn enc_bool(b: bool) -> Seq<char> {
    if b {
        true_chars()
    } else {
        false_chars()
    }
}

pub open spec fn d_version() -> Seq<char> {
    seq!['{', '"', 'v', 'e', 'r', 's', 'i', 'o', 'n', '"', ':']
}

pub open spec fn d_value_id() -> Seq<char> {
    seq![',', '"', 'v', 'a', 'l', 'u', 'e', '"', ':', '{', '"', 'i', 'd', '"', ':']
}

pub open spec fn d_taken() -> Seq<char> {
    seq![',', '"', 't', 'a', 'k', 'e', 'n', '"', ':']
}

pub open spec fn d_email() -> Seq<char> {
    seq![',', '"', 'r', 'e', 's', '_', 'e', 'm', 'a', 'i', 'l', '"', ':']
}

pub open spec fn d_name() -> Seq<char> {
    seq![',', '"', 'r', 'e', 's', '_', 'n', 'a', 'm', 'e', '"', ':']
}

pub open spec fn d_card() -> Seq<char> {
    seq![',', '"', 'r', 'e', 's', '_', 'c', 'a', 'r', 'd', '"', ':']
}

pub open spec fn d_close() -> Seq<char> {
    seq!['}', '}']
}

/// The text a versioned record is stored as.
pub open spec fn enc_record(r: RecordModel) -> Seq<char> {
    d_version() + dec_seq(r.version as nat) + d_value_id() + dec_seq(r.value.id as nat) + d_taken()
        + enc_bool(r.value.taken) + d_email() + enc_detail(r.value.res_email) + d_name()
        + enc_detail(r.value.res_name) + d_card() + enc_detail(r.value.res_card) + d_close()
}

/// Escaping one more character appends its escaped form.
proof fn lemma_esc_push(t: Seq<char>, c: char)
    ensures
        esc(t.push(c)) == esc(t) + esc_one(c),
    decreases t.len(),
{
    if t.len() == 0 {
        assert(t.push(c).drop_first() =~= Seq::<char>::empty());
        assert(t.push(c)[0] == c);
        assert(esc(t.push(c)) == esc_one(c) + esc(Seq::<char>::empty()));
        assert(esc(t.push(c)) =~= esc_one(c));
        assert(esc(t) + esc_one(c) =~= esc_one(c));
    } else {
        assert(t.push(c).drop_first() =~= t.drop_first().push(c));
        lemma_esc_push(t.drop_first(), c);
        assert(esc(t.push(c)) =~= esc(t) + esc_one(c));
    }
}

fn append_escaped(out: &mut String, s: &str)
    ensures
        final(out)@ == old(out)@ + esc(s@),
{
    let n = s.unicode_len();
    let mut i: usize = 0;
    while i < n
        invariant
            i <= n,
            n == s@.len(),
            out@ == old(out)@ + esc(s@.subrange(0, i as int)),
        decreases n - i,
    {
        let c = s.get_char(i);
        if c == '"' {
            out.append("\\\"");
            proof {
                reveal_strlit("\\\"");
                assert("\\\""@ =~= esc_one(c));
            }
        } else if c == '\\' {
            out.append("\\\\");
            proof {
                reveal_strlit("\\\\");
                assert("\\\\"@ =~= esc_one(c));
            }
        } else {
            let piece = s.substring_char(i, i + 1);
            out.append(piece);
            proof {
                assert(piece@ =~= esc_one(c));
            }
        }
        proof {
            assert(s@.subrange(0, i + 1) =~= s@.subrange(0, i as int).push(c));
            lemma_esc_push(s@.subrange(0, i as int), c);
            assert(out@ =~= old(out)@ + esc(s@.subrange(0, i + 1)));
        }
        i = i + 1;
    }
    proof {
        assert(s@.subrange(0, n as int) =~= s@);
    }
}

fn append_detail(out: &mut String, d: &Option<String>)
    ensures
        final(out)@ == old(out)@ + enc_detail(
            match d {
                Some(s) => Some(s@),
                None => None,
            },
        ),
{
    match d {
        None => {
            out.append("null");
            proof {
                reveal_strlit("null");
                assert("null"@ =~= null_chars());
                assert(final(out)@ =~= old(out)@ + null_chars());
            }
        },
        Some(s) => {
            out.append("\"");
            append_escaped(out, s.as_str());
            out.append("\"");
            proof {
                reveal_strlit("\"");
                assert("\""@ =~= seq!['"']);
                assert(final(out)@ =~= old(out)@ + (seq!['"'] + esc(s@) + seq!['"']));
            }
        },
    }
}

/// Writes a versioned record as its stored text.
pub fn encode_record(v: &MyValue) -> (out: String)
    ensures
        out@ == enc_record(v@),
{
    let mut out = String::new();
    out.append("{\"version\":");
    proof {
        reveal_strlit("{\"version\":");
        assert("{\"version\":"@ =~= d_version());
    }
    let version_text = u32_to_string(v.version);
    out.append(version_text.as_str());
    out.append(",\"value\":{\"id\":");
    proof {
        reveal_strlit(",\"value\":{\"id\":");
        assert(",\"value\":{\"id\":"@ =~= d_value_id());
    }
    let id_text = u32_to_string(v.value.id);
    out.append(id_text.as_str());
    out.append(",\"taken\":");
    proof {
        reveal_strlit(",\"taken\":");
        assert(",\"taken\":"@ =~= d_taken());
    }
    if v.value.taken {
        out.append("true");
        proof {
            reveal_strlit("true");
            assert("true"@ =~= enc_bool(v.value.taken));
        }
    } else {
        out.append("false");
        proof {
            reveal_strlit("false");
            assert("false"@ =~= enc_bool(v.value.taken));
        }
    }
    out.append(",\"res_email\":");
    proof {
        reveal_strlit(",\"res_email\":");
        assert(",\"res_email\":"@ =~= d_email());
    }
    append_detail(&mut out, &v.value.res_email);
    out.append(",\"res_name\":");
    proof {
        reveal_strlit(",\"res_name\":");
        assert(",\"res_name\":"@ =~= d_name());
    }
    append_detail(&mut out, &v.value.res_name);
    out.append(",\"res_card\":");
    proof {
        reveal_strlit(",\"res_card\":");
        assert(",\"res_card\":"@ =~= d_card());
    }
    append_detail(&mut out, &v.value.res_card);
    out.append("}}");
    proof {
        reveal_strlit("}}");
        assert("}}"@ =~= d_close());
        assert(out@ =~= enc_record(v@));
    }
    out
}

/// Whether the text carries `lit` at position `i`, and where it ends.
pub open spec fn spec_expect(s: Seq<char>, i: int, lit: Seq<char>) -> Option<int> {
    if 0 <= i && i + lit.len() <= s.len() && s.subrange(i, i + lit.len()) == lit {
        Some(i + lit.len())
    } else {
        None
    }
}

/// Where the run of decimal digits starting at `i` ends.
pub open spec fn digits_end(s: Seq<char>, i: int) -> int
    decreases s.len() - i
        when 0 <= i <= s.len()
{
    if i < s.len() && is_digit(s[i]) {
        digits_end(s, i + 1)
    } else {
        i
    }
}

proof fn lemma_digits_end_props(s: Seq<char>, i: int)
    requires
        0 <= i <= s.len(),
    ensures
        i <= digits_end(s, i) <= s.len(),
        forall|p: int| i <= p < digits_end(s, i) ==> is_digit(#[trigger] s[p]),
        digits_end(s, i) == s.len() || !is_digit(s[digits_end(s, i)]),
    decreases s.len() - i,
{
    if i < s.len() && is_digit(s[i]) {
        lemma_digits_end_props(s, i + 1);
    }
}

proof fn lemma_digits_end_run(s: Seq<char>, i: int, e: int)
    requires
        0 <= i <= e <= s.len(),
        forall|p: int| i <= p < e ==> is_digit(#[trigger] s[p]),
        e == s.len() || !is_digit(s[e]),
    ensures
        digits_end(s, i) == e,
    decreases e - i,
{
    if i < e {
        lemma_digits_end_run(s, i + 1, e);
    }
}

/// The number at position `i`: a nonempty greedy digit run with no leading
/// zero, accepted only when its value fits in `u32`.
pub open spec fn spec_parse_num(s: Seq<char>, i: int) -> Option<(u32, int)>
    recommends
        0 <= i <= s.len(),
{
    let e = digits_end(s, i);
    let t = s.subrange(i, e);
    if t.len() > 0 && (t[0] != '0' || t.len() == 1) && dec_val(t) <= u32::MAX {
        Some((dec_val(t) as u32, e))
    } else {
        None
    }
}

/// The boolean at position `i`: the word `true` or the word `false`.
pub open spec fn spec_parse_bool(s: Seq<char>, i: int) -> Option<(bool, int)> {
    if spec_expect(s, i, true_chars()) is Some {
        Some((true, i + 4))
    } else if spec_expect(s, i, false_chars()) is Some {
        Some((false, i + 5))
    } else {
        None
    }
}

/// The remainder of a quoted string whose opening quote has already been
/// read: the unescaped content, and the position after the closing quote.
pub open spec fn spec_parse_jstr(s: Seq<char>, i: int) -> Option<(Seq<char>, int)>
    decreases s.len() - i
        when 0 <= i <= s.len()
{
    if i >= s.len() {
        None
    } else if s[i] == '"' {
        Some((Seq::empty(), i + 1))
    } else if s[i] == '\\' {
        if i + 1 < s.len() && (s[i + 1] == '"' || s[i + 1] == '\\') {
            match spec_parse_jstr(s, i + 2) {
                Some(p) => Some((seq![s[i + 1]] + p.0, p.1)),
                None => None,
            }
        } else {
            None
        }
    } else {
        match spec_parse_jstr(s, i + 1) {
            Some(p) => Some((seq![s[i]] + p.0, p.1)),
            None => None,
        }
    }
}

proof fn lemma_parse_jstr_bounds(s: Seq<char>, i: int)
    requires
        0 <= i <= s.len(),
    ensures
        spec_parse_jstr(s, i) matches Some(p) ==> i < p.1 <= s.len(),
    decreases s.len() - i,
{
    if i < s.len() && s[i] != '"' {
        if s[i] == '\\' {
            if i + 1 < s.len() && (s[i + 1] == '"' || s[i + 1] == '\\') {
                lemma_parse_jstr_bounds(s, i + 2);
            }
        } else {
            lemma_parse_jstr_bounds(s, i + 1);
        }
    }
}

/// The detail at position `i`: the word `null`, or a quoted string.
pub open spec fn spec_parse_detail(s: Seq<char>, i: int) -> Option<(Option<Seq<char>>, int)>
    recommends
        0 <= i <= s.len(),
{
    if spec_expect(s, i, null_chars()) is Some {
        Some((None, i + 4))
    } else if 0 <= i < s.len() && s[i] == '"' {
        match spec_parse_jstr(s, i + 1) {
            Some(p) => Some((Some(p.0), p.1)),
            None => None,
        }
    } else {
        None
    }
}

fn expect_lit(s: &str, i: usize, lit: &str) -> (r: Option<usize>)
    requires
        i <= s@.len(),
    ensures
        match r {
            Some(j) => spec_expect(s@, i as int, lit@) == Some(j as int) && i <= j <= s@.len(),
            None => spec_expect(s@, i as int, lit@) is None,
        },
{
    let n = s.unicode_len();
    let m = lit.unicode_len();
    if m > n - i {
        return None;
    }
    let mut k: usize = 0;
    while k < m
        invariant
            k <= m,
            i + m <= n,
            n == s@.len(),
            m == lit@.len(),
            forall|t: int| 0 <= t < k ==> s@[i + t] == lit@[t],
        decreases m - k,
    {
        if s.get_char(i + k) != lit.get_char(k) {
            proof {
                let sub = s@.subrange(i as int, i + m);
                assert(sub[k as int] == s@[i + k]);
                assert(sub != lit@);
            }
            return None;
        }
        k = k + 1;
    }
    proof {
        assert(s@.subrange(i as int, i + m) =~= lit@);
    }
    Some(i + m)
}

fn find_digits_end(s: &str, i: usize) -> (j: usize)
    requires
        i <= s@.len(),
    ensures
        j == digits_end(s@, i as int),
        i <= j <= s@.len(),
    decreases s@.len() - i,
{
    if i < s.unicode_len() {
        let c = s.get_char(i);
        let u = c as u32;
        if 48 <= u && u <= 57 {
            return find_digits_end(s, i + 1);
        }
    }
    i
}

fn parse_num(s: &str, i: usize) -> (r: Option<(u32, usize)>)
    requires
        i <= s@.len(),
    ensures
        match r {
            Some(p) => spec_parse_num(s@, i as int) == Some((p.0, p.1 as int)) && i < p.1
                <= s@.len(),
            None => spec_parse_num(s@, i as int) is None,
        },
{
    let e = find_digits_end(s, i);
    proof {
        lemma_digits_end_props(s@, i as int);
    }
    if e == i {
        return None;
    }
    if e > i + 1 && s.get_char(i) == '0' {
        return None;
    }
    let ghost t = s@.subrange(i as int, e as int);
    let mut acc: u32 = 0;
    let mut k: usize = i;
    while k < e
        invariant
            i <= k <= e <= s@.len(),
            e == digits_end(s@, i as int),
            forall|p: int| i <= p < e ==> is_digit(#[trigger] s@[p]),
            t == s@.subrange(i as int, e as int),
            acc as nat == dec_val(s@.subrange(i as int, k as int)),
        decreases e - k,
    {
        let c = s.get_char(k);
        let u = c as u32;
        proof {
            assert(is_digit(s@[k as int]));
        }
        let d = u - 48;
        proof {
            assert(digit_val(s@[k as int]) == d as nat);
        }
        if acc > (u32::MAX - d) / 10 {
            proof {
                let prefix = s@.subrange(i as int, k as int);
                let extended = s@.subrange(i as int, k + 1 as int);
                assert(extended =~= prefix.push(s@[k as int]));
                assert(extended.drop_last() =~= prefix);
                assert((acc as nat) * 10 + d as nat > u32::MAX as nat) by (nonlinear_arith)
                    requires
                        acc > (u32::MAX - d) / 10,
                        d <= 9,
                ;
                assert(extended =~= t.subrange(0, k + 1 - i));
                lemma_dec_val_prefix(t, k + 1 - i);
                assert(dec_val(t) > u32::MAX as nat);
            }
            return None;
        }
        proof {
            assert((acc as nat) * 10 + d as nat <= u32::MAX as nat) by (nonlinear_arith)
                requires
                    acc <= (u32::MAX - d) / 10,
                    d <= 9,
            ;
        }
        let ghost old_k = k as int;
        acc = acc * 10 + d;
        k = k + 1;
        proof {
            let prefix = s@.subrange(i as int, old_k);
            let extended = s@.subrange(i as int, k as int);
            assert(extended =~= prefix.push(s@[old_k]));
            assert(extended.drop_last() =~= prefix);
        }
    }
    Some((acc, e))
}

fn parse_bool(s: &str, i: usize) -> (r: Option<(bool, usize)>)
    requires
        i <= s@.len(),
    ensures
        match r {
            Some(p) => spec_parse_bool(s@, i as int) == Some((p.0, p.1 as int)) && i < p.1
                <= s@.len(),
            None => spec_parse_bool(s@, i as int) is None,
        },
{
    proof {
        reveal_strlit("true");
        reveal_strlit("false");
        assert("true"@ =~= true_chars());
        assert("false"@ =~= false_chars());
    }
    if let Some(j) = expect_lit(s, i, "true") {
        return Some((true, j));
    }
    if let Some(j) = expect_lit(s, i, "false") {
        return Some((false, j));
    }
    None
}

fn parse_jstr(s: &str, i: usize) -> (r: Option<(String, usize)>)
    requires
        i <= s@.len(),
    ensures
        match r {
            Some(p) => spec_parse_jstr(s@, i as int) == Some((p.0@, p.1 as int)) && i < p.1
                <= s@.len(),
            None => spec_parse_jstr(s@, i as int) is None,
        },
{
    let n = s.unicode_len();
    let mut acc = String::new();
    let mut k: usize = i;
    while k < n
        invariant
            i <= k <= n,
            n == s@.len(),
            spec_parse_jstr(s@, i as int) == (match spec_parse_jstr(s@, k as int) {
                Some(p) => Some((acc@ + p.0, p.1)),
                None => None::<(Seq<char>, int)>,
            }),
        decreases n - k,
    {
        let c = s.get_char(k);
        if c == '"' {
            proof {
                assert(spec_parse_jstr(s@, k as int) == Some((Seq::<char>::empty(), k + 1)));
                assert(acc@ + Seq::<char>::empty() =~= acc@);
                lemma_parse_jstr_bounds(s@, i as int);
            }
            return Some((acc, k + 1));
        } else if c == '\\' {
            if k + 1 < n {
                let c2 = s.get_char(k + 1);
                if c2 == '"' || c2 == '\\' {
                    let ghost prev = acc@;
                    acc.append(s.substring_char(k + 1, k + 2));
                    proof {
                        assert(acc@ =~= prev.push(s@[k + 1]));
                        let next = spec_parse_jstr(s@, k + 2);
                        if next is Some {
                            let p = next->Some_0;
                            assert(spec_parse_jstr(s@, k as int) == Some(
                                (seq![s@[k + 1]] + p.0, p.1),
                            ));
                            assert(prev + (seq![s@[k + 1]] + p.0) =~= acc@ + p.0);
                        } else {
                            assert(spec_parse_jstr(s@, k as int) is None);
                        }
                    }
                    k = k + 2;
                } else {
                    proof {
                        assert(spec_parse_jstr(s@, k as int) is None);
                    }
                    return None;
                }
            } else {
                proof {
                    assert(spec_parse_jstr(s@, k as int) is None);
                }
                return None;
            }
        } else {
            let ghost prev = acc@;
            acc.append(s.substring_char(k, k + 1));
            proof {
                assert(acc@ =~= prev.push(s@[k as int]));
                let next = spec_parse_jstr(s@, k + 1);
                if next is Some {
                    let p = next->Some_0;
                    assert(spec_parse_jstr(s@, k as int) == Some((seq![s@[k as int]] + p.0, p.1)));
                    assert(prev + (seq![s@[k as int]] + p.0) =~= acc@ + p.0);
                } else {
                    assert(spec_parse_jstr(s@, k as int) is None);
                }
            }
            k = k + 1;
        }
    }
    proof {
        assert(spec_parse_jstr(s@, k as int) is None);
    }
    None
}

fn parse_detail(s: &str, i: usize) -> (r: Option<(Option<String>, usize)>)
    requires
        i <= s@.len(),
    ensures
        match r {
            Some(p) => spec_parse_detail(s@, i as int) == Some(
                (
                    match p.0 {
                        Some(x) => Some(x@),
                        None => None,
                    },
                    p.1 as int,
                ),
            ) && i < p.1 <= s@.len(),
            None => spec_parse_detail(s@, i as int) is None,
        },
{
    proof {
        reveal_strlit("null");
        assert("null"@ =~= null_chars());
    }
    if let Some(j) = expect_lit(s, i, "null") {
        return Some((None, j));
    }
    if i < s.unicode_len() {
        let c = s.get_char(i);
        if c == '"' {
            match parse_jstr(s, i + 1) {
                Some((content, j)) => {
                    return Some((Some(content), j));
                },
                None => {
                    return None;
                },
            }
        }
    }
    None
}

/// The record a stored text denotes, when the text has exactly the
/// encoder's shape; anything else denotes nothing.
pub open spec fn dec_record(s: Seq<char>) -> Option<RecordModel> {
    match spec_expect(s, 0, d_version()) {
        None => None,
        Some(i1) => match spec_parse_num(s, i1) {
            None => None,
            Some((version, i2)) => match spec_expect(s, i2, d_value_id()) {
                None => None,
                Some(i3) => match spec_parse_num(s, i3) {
                    None => None,
                    Some((id, i4)) => match spec_expect(s, i4, d_taken()) {
                        None => None,
                        Some(i5) => match spec_parse_bool(s, i5) {
                            None => None,
                            Some((taken, i6)) => match spec_expect(s, i6, d_email()) {
                                None => None,
                                Some(i7) => match spec_parse_detail(s, i7) {
                                    None => None,
                                    Some((email, i8)) => match spec_expect(s, i8, d_name()) {
                                        None => None,
                                        Some(i9) => match spec_parse_detail(s, i9) {
                                            None => None,
                                            Some((name, i10)) => match spec_expect(
                                                s,
                                                i10,
                                                d_card(),
                                            ) {
                                                None => None,
                                                Some(i11) => match spec_parse_detail(s, i11) {
                                                    None => None,
                                                    Some((card, i12)) => match spec_expect(
                                                        s,
                                                        i12,
                                                        d_close(),
                                                    ) {
                                                        None => None,
                                                        Some(i13) => if i13 == s.len() {
                                                            Some(
                                                                RecordModel {
                                                                    version,
                                                                    value: TicketModel {
                                                                        id,
                                                                        taken,
                                                                        res_email: email,
                                                                        res_name: name,
                                                                        res_card: card,
                                                                    },
                                                                },
                                                            )
                                                        } else {
                                                            None
                                                        },
                                                    },
                                                },
                                            },
                                        },
                                    },
                                },
                            },
                        },
                    },
                },
            },
        },
    }
}

/// Reads a versioned record back from its stored text. Only a text with
/// exactly the encoder's shape is accepted.
pub fn decode_record(s: &str) -> (r: Option<MyValue>)
    ensures
        match r {
            Some(v) => dec_record(s@) == Some(v@),
            None => dec_record(s@) is None,
        },
{
    proof {
        reveal_strlit("{\"version\":");
        assert("{\"version\":"@ =~= d_version());
        reveal_strlit(",\"value\":{\"id\":");
        assert(",\"value\":{\"id\":"@ =~= d_value_id());
        reveal_strlit(",\"taken\":");
        assert(",\"taken\":"@ =~= d_taken());
        reveal_strlit(",\"res_email\":");
        assert(",\"res_email\":"@ =~= d_email());
        reveal_strlit(",\"res_name\":");
        assert(",\"res_name\":"@ =~= d_name());
        reveal_strlit(",\"res_card\":");
        assert(",\"res_card\":"@ =~= d_card());
        reveal_strlit("}}");
        assert("}}"@ =~= d_close());
    }
    let i1 = match expect_lit(s, 0, "{\"version\":") {
        Some(j) => j,
        None => {
            return None;
        },
    };
    let (version, i2) = match parse_num(s, i1) {
        Some(p) => p,
        None => {
            return None;
        },
    };
    let i3 = match expect_lit(s, i2, ",\"value\":{\"id\":") {
        Some(j) => j,
        None => {
            return None;
        },
    };
    let (id, i4) = match parse_num(s, i3) {
        Some(p) => p,
        None => {
            return None;
        },
    };
    let i5 = match expect_lit(s, i4, ",\"taken\":") {
        Some(j) => j,
        None => {
            return None;
        },
    };
    let (taken, i6) = match parse_bool(s, i5) {
        Some(p) => p,
        None => {
            return None;
        },
    };
    let i7 = match expect_lit(s, i6, ",\"res_email\":") {
        Some(j) => j,
        None => {
            return None;
        },
    };
    let (email, i8) = match parse_detail(s, i7) {
        Some(p) => p,
        None => {
            return None;
        },
    };
    let i9 = match expect_lit(s, i8, ",\"res_name\":") {
        Some(j) => j,
        None => {
            return None;
        },
    };
    let (name, i10) = match parse_detail(s, i9) {
        Some(p) => p,
        None => {
            return None;
        },
    };
    let i11 = match expect_lit(s, i10, ",\"res_card\":") {
        Some(j) => j,
        None => {
            return None;
        },
    };
    let (card, i12) = match parse_detail(s, i11) {
        Some(p) => p,
        None => {
            return None;
        },
    };
    let i13 = match expect_lit(s, i12, "}}") {
        Some(j) => j,
        None => {
            return None;
        },
    };
    if i13 != s.unicode_len() {
        return None;
    }
    Some(
        MyValue {
            version,
            value: Ticket { id, taken, res_email: email, res_name: name, res_card: card },
        },
    )
}

proof fn lemma_parse_num_at(s: Seq<char>, i: int, n: u32)
    requires
        0 <= i,
        i + dec_seq(n as nat).len() <= s.len(),
        s.subrange(i, i + dec_seq(n as nat).len()) == dec_seq(n as nat),
        i + dec_seq(n as nat).len() == s.len() || !is_digit(s[i + dec_seq(n as nat).len()]),
    ensures
        spec_parse_num(s, i) == Some((n, i + dec_seq(n as nat).len())),
{
    let t = dec_seq(n as nat);
    let e = i + t.len();
    crate::text::lemma_dec_seq_digits(n as nat);
    crate::text::lemma_dec_val_dec_seq(n as nat);
    assert forall|p: int| i <= p < e implies is_digit(#[trigger] s[p]) by {
        assert(s[p] == s.subrange(i, e)[p - i]);
    }
    lemma_digits_end_run(s, i, e);
    if t[0] == '0' {
        assert(n == 0);
        assert(t.len() == 1);
    }
}

proof fn lemma_parse_bool_at(s: Seq<char>, i: int, b: bool)
    requires
        0 <= i,
        i + enc_bool(b).len() <= s.len(),
        s.subrange(i, i + enc_bool(b).len()) == enc_bool(b),
    ensures
        spec_parse_bool(s, i) == Some((b, i + enc_bool(b).len())),
{
    if b {
        assert(spec_expect(s, i, true_chars()) is Some);
    } else {
        assert(spec_expect(s, i, true_chars()) is None) by {
            if i + 4 <= s.len() && s.subrange(i, i + 4) == true_chars() {
                assert(s[i] == s.subrange(i, i + 4)[0]);
                assert(s[i] == s.subrange(i, i + 5)[0]);
                assert(false);
            }
        }
        assert(spec_expect(s, i, false_chars()) is Some);
    }
}

proof fn lemma_parse_jstr_at(s: Seq<char>, i: int, x: Seq<char>)
    requires
        0 <= i,
        i + esc(x).len() + 1 <= s.len(),
        s.subrange(i, i + esc(x).len() + 1) == esc(x) + seq!['"'],
    ensures
        spec_parse_jstr(s, i) == Some((x, i + esc(x).len() + 1)),
    decreases x.len(),
{
    let ex = esc(x);
    if x.len() == 0 {
        assert(ex == Seq::<char>::empty());
        assert(s[i] == s.subrange(i, i + 1)[0]);
        assert(s[i] == '"');
        assert(x =~= Seq::<char>::empty());
    } else {
        let c = x[0];
        let x1 = x.drop_first();
        let e1 = esc(x1);
        assert(ex == esc_one(c) + e1);
        if c == '"' || c == '\\' {
            assert(esc_one(c) =~= seq!['\\', c]);
            assert(s[i] == s.subrange(i, i + ex.len() + 1)[0]);
            assert(s[i] == '\\');
            assert(s[i + 1] == s.subrange(i, i + ex.len() + 1)[1]);
            assert(s[i + 1] == c);
            assert(s.subrange(i + 2, i + 2 + e1.len() + 1) =~= e1 + seq!['"']) by {
                assert forall|q: int| 0 <= q < e1.len() + 1 implies s.subrange(
                    i + 2,
                    i + 2 + e1.len() + 1,
                )[q] == (e1 + seq!['"'])[q] by {
                    assert(s.subrange(i + 2, i + 2 + e1.len() + 1)[q] == s[i + 2 + q]);
                    assert(s[i + 2 + q] == s.subrange(i, i + ex.len() + 1)[2 + q]);
                    assert((ex + seq!['"'])[2 + q] == (e1 + seq!['"'])[q]);
                }
            }
            lemma_parse_jstr_at(s, i + 2, x1);
            assert(seq![c] + x1 =~= x);
        } else {
            assert(esc_one(c) =~= seq![c]);
            assert(s[i] == s.subrange(i, i + ex.len() + 1)[0]);
            assert(s[i] == c);
            assert(s.subrange(i + 1, i + 1 + e1.len() + 1) =~= e1 + seq!['"']) by {
                assert forall|q: int| 0 <= q < e1.len() + 1 implies s.subrange(
                    i + 1,
                    i + 1 + e1.len() + 1,
                )[q] == (e1 + seq!['"'])[q] by {
                    assert(s.subrange(i + 1, i + 1 + e1.len() + 1)[q] == s[i + 1 + q]);
                    assert(s[i + 1 + q] == s.subrange(i, i + ex.len() + 1)[1 + q]);
                    assert((ex + seq!['"'])[1 + q] == (e1 + seq!['"'])[q]);
                }
            }
            lemma_parse_jstr_at(s, i + 1, x1);
            assert(seq![c] + x1 =~= x);
        }
    }
}

proof fn lemma_parse_detail_at(s: Seq<char>, i: int, d: Option<Seq<char>>)
    requires
        0 <= i,
        i + enc_detail(d).len() <= s.len(),
        s.subrange(i, i + enc_detail(d).len()) == enc_detail(d),
    ensures
        spec_parse_detail(s, i) == Some((d, i + enc_detail(d).len())),
{
    match d {
        None => {
            assert(spec_expect(s, i, null_chars()) is Some);
        },
        Some(x) => {
            let en = enc_detail(d);
            assert(en == seq!['"'] + esc(x) + seq!['"']);
            assert(s[i] == s.subrange(i, i + en.len())[0]);
            assert(s[i] == '"');
            assert(spec_expect(s, i, null_chars()) is None) by {
                if i + 4 <= s.len() && s.subrange(i, i + 4) == null_chars() {
                    assert(s[i] == s.subrange(i, i + 4)[0]);
                    assert(false);
                }
            }
            assert(s.subrange(i + 1, i + 1 + esc(x).len() + 1) =~= esc(x) + seq!['"']) by {
                assert forall|q: int| 0 <= q < esc(x).len() + 1 implies s.subrange(
                    i + 1,
                    i + 1 + esc(x).len() + 1,
                )[q] == (esc(x) + seq!['"'])[q] by {
                    assert(s.subrange(i + 1, i + 1 + esc(x).len() + 1)[q] == s[i + 1 + q]);
                    assert(s[i + 1 + q] == s.subrange(i, i + en.len())[1 + q]);
                    assert(en[1 + q] == (esc(x) + seq!['"'])[q]);
                }
            }
            lemma_parse_jstr_at(s, i + 1, x);
        },
    }
}

proof fn lemma_split(p: Seq<char>, t: Seq<char>, s: Seq<char>)
    requires
        s == p + t,
    ensures
        s.subrange(0, p.len() as int) == p,
        s.subrange(p.len() as int, s.len() as int) == t,
{
    assert(s.subrange(0, p.len() as int) =~= p);
    assert(s.subrange(p.len() as int, s.len() as int) =~= t);
}

proof fn lemma_sub_transfer(s: Seq<char>, p: Seq<char>, x: int, y: int)
    requires
        0 <= x <= y <= p.len() <= s.len(),
        s.subrange(0, p.len() as int) == p,
    ensures
        s.subrange(x, y) == p.subrange(x, y),
{
    assert forall|q: int| 0 <= q < y - x implies s.subrange(x, y)[q] == p.subrange(x, y)[q] by {
        assert(s.subrange(0, p.len() as int)[x + q] == s[x + q]);
    }
    assert(s.subrange(x, y) =~= p.subrange(x, y));
}

/// Reading a record's stored text back yields exactly that record: the
/// codec loses nothing, whatever the version, flags or detail strings are.
#[verifier::rlimit(100)]
pub proof fn lemma_record_round_trip(r: RecordModel)
    ensures
        dec_record(enc_record(r)) == Some(r),
{
    let s = enc_record(r);
    let a0 = d_version();
    let a1 = dec_seq(r.version as nat);
    let a2 = d_value_id();
    let a3 = dec_seq(r.value.id as nat);
    let a4 = d_taken();
    let a5 = enc_bool(r.value.taken);
    let a6 = d_email();
    let a7 = enc_detail(r.value.res_email);
    let a8 = d_name();
    let a9 = enc_detail(r.value.res_name);
    let a10 = d_card();
    let a11 = enc_detail(r.value.res_card);
    let a12 = d_close();
    let p1 = a0;
    let p2 = p1 + a1;
    let p3 = p2 + a2;
    let p4 = p3 + a3;
    let p5 = p4 + a4;
    let p6 = p5 + a5;
    let p7 = p6 + a6;
    let p8 = p7 + a7;
    let p9 = p8 + a8;
    let p10 = p9 + a9;
    let p11 = p10 + a10;
    let p12 = p11 + a11;
    let o1 = p1.len() as int;
    let o2 = p2.len() as int;
    let o3 = p3.len() as int;
    let o4 = p4.len() as int;
    let o5 = p5.len() as int;
    let o6 = p6.len() as int;
    let o7 = p7.len() as int;
    let o8 = p8.len() as int;
    let o9 = p9.len() as int;
    let o10 = p10.len() as int;
    let o11 = p11.len() as int;
    let o12 = p12.len() as int;
    let o13 = s.len() as int;
    assert(s == p12 + a12);
    lemma_split(p12, a12, s);
    assert(s.subrange(o12, o13) == a12);
    lemma_split(p11, a11, p12);
    lemma_sub_transfer(s, p12, 0, o11);
    lemma_sub_transfer(s, p12, o11, o12);
    assert(s.subrange(0, o11) == p11);
    assert(s.subrange(o11, o12) == a11);
    lemma_split(p10, a10, p11);
    lemma_sub_transfer(s, p11, 0, o10);
    lemma_sub_transfer(s, p11, o10, o11);
    assert(s.subrange(0, o10) == p10);
    assert(s.subrange(o10, o11) == a10);
    lemma_split(p9, a9, p10);
    lemma_sub_transfer(s, p10, 0, o9);
    lemma_sub_transfer(s, p10, o9, o10);
    assert(s.subrange(0, o9) == p9);
    assert(s.subrange(o9, o10) == a9);
    lemma_split(p8, a8, p9);
    lemma_sub_transfer(s, p9, 0, o8);
    lemma_sub_transfer(s, p9, o8, o9);
    assert(s.subrange(0, o8) == p8);
    assert(s.subrange(o8, o9) == a8);
    lemma_split(p7, a7, p8);
    lemma_sub_transfer(s, p8, 0, o7);
    lemma_sub_transfer(s, p8, o7, o8);
    assert(s.subrange(0, o7) == p7);
    assert(s.subrange(o7, o8) == a7);
    lemma_split(p6, a6, p7);
    lemma_sub_transfer(s, p7, 0, o6);
    lemma_sub_transfer(s, p7, o6, o7);
    assert(s.subrange(0, o6) == p6);
    assert(s.subrange(o6, o7) == a6);
    lemma_split(p5, a5, p6);
    lemma_sub_transfer(s, p6, 0, o5);
    lemma_sub_transfer(s, p6, o5, o6);
    assert(s.subrange(0, o5) == p5);
    assert(s.subrange(o5, o6) == a5);
    lemma_split(p4, a4, p5);
    lemma_sub_transfer(s, p5, 0, o4);
    lemma_sub_transfer(s, p5, o4, o5);
    assert(s.subrange(0, o4) == p4);
    assert(s.subrange(o4, o5) == a4);
    lemma_split(p3, a3, p4);
    lemma_sub_transfer(s, p4, 0, o3);
    lemma_sub_transfer(s, p4, o3, o4);
    assert(s.subrange(0, o3) == p3);
    assert(s.subrange(o3, o4) == a3);
    lemma_split(p2, a2, p3);
    lemma_sub_transfer(s, p3, 0, o2);
    lemma_sub_transfer(s, p3, o2, o3);
    assert(s.subrange(0, o2) == p2);
    assert(s.subrange(o2, o3) == a2);
    lemma_split(p1, a1, p2);
    lemma_sub_transfer(s, p2, 0, o1);
    lemma_sub_transfer(s, p2, o1, o2);
    assert(s.subrange(0, o1) == p1);
    assert(s.subrange(o1, o2) == a1);
    assert(spec_expect(s, 0, d_version()) == Some(o1));
    assert(s[o2] == s.subrange(o2, o3)[0]);
    assert(!is_digit(s[o2]));
    lemma_parse_num_at(s, o1, r.version);
    assert(spec_parse_num(s, o1) == Some((r.version, o2)));
    assert(spec_expect(s, o2, d_value_id()) == Some(o3));
    assert(s[o4] == s.subrange(o4, o5)[0]);
    assert(!is_digit(s[o4]));
    lemma_parse_num_at(s, o3, r.value.id);
    assert(spec_parse_num(s, o3) == Some((r.value.id, o4)));
    assert(spec_expect(s, o4, d_taken()) == Some(o5));
    lemma_parse_bool_at(s, o5, r.value.taken);
    assert(spec_parse_bool(s, o5) == Some((r.value.taken, o6)));
    assert(spec_expect(s, o6, d_email()) == Some(o7));
    lemma_parse_detail_at(s, o7, r.value.res_email);
    assert(spec_parse_detail(s, o7) == Some((r.value.res_email, o8)));
    assert(spec_expect(s, o8, d_name()) == Some(o9));
    lemma_parse_detail_at(s, o9, r.value.res_name);
    assert(spec_parse_detail(s, o9) == Some((r.value.res_name, o10)));
    assert(spec_expect(s, o10, d_card()) == Some(o11));
    lemma_parse_detail_at(s, o11, r.value.res_card);
    assert(spec_parse_detail(s, o11) == Some((r.value.res_card, o12)));
    assert(spec_expect(s, o12, d_close()) == Some(o13));
    assert(TicketModel {
        id: r.value.id,
        taken: r.value.taken,
        res_email: r.value.res_email,
        res_name: r.value.res_name,
        res_card: r.value.res_card,
    } =~= r.value);
    assert(RecordModel { version: r.version, value: r.value } =~= r);
}

} // verus!
