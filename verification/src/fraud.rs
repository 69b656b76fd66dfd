use vstd::prelude::*;

use crate::ticket::{Ticket, TicketModel};

verus! {

/// A character accepted before the `@` of an address: a letter, a digit,
/// or one of `_`, `.`, `+`, `-`.
pub open spec fn is_local_char(c: char) -> bool {
    ||| ('a' as int <= c as int && c as int <= 'z' as int)
    ||| ('A' as int <= c as int && c as int <= 'Z' as int)
    ||| ('0' as int <= c as int && c as int <= '9' as int)
    ||| c == '_'
    ||| c == '.'
    ||| c == '+'
    ||| c == '-'
}

/// A character accepted in the host part, between the `@` and the first
/// dot that ends it: a letter, a digit, or a hyphen — never a dot.
pub open spec fn is_domain_char(c: char) -> bool {
    ||| ('a' as int <= c as int && c as int <= 'z' as int)
    ||| ('A' as int <= c as int && c as int <= 'Z' as int)
    ||| ('0' as int <= c as int && c as int <= '9' as int)
    ||| c == '-'
}

/// A character accepted after that dot: a host character or a further dot.
pub open spec fn is_suffix_char(c: char) -> bool {
    is_domain_char(c) || c == '.'
}

/// The strict address shape a reservation email must have: one or more
/// local characters, an `@`, one or more dot-free host characters, a
/// literal dot, then one or more suffix characters.
pub open spec fn is_email(s: Seq<char>) -> bool {
    exists|i: int, j: int|
        #![trigger s[i], s[j]]
        {
            &&& 1 <= i
            &&& i + 1 < j
            &&& j + 1 < s.len()
            &&& s[i] == '@'
            &&& s[j] == '.'
            &&& (forall|k: int| 0 <= k < i ==> is_local_char(#[trigger] s[k]))
            &&& (forall|k: int| i < k < j ==> is_domain_char(#[trigger] s[k]))
            &&& (forall|k: int| j < k < s.len() ==> is_suffix_char(#[trigger] s[k]))
        }
}

/// Relies on `regex::Regex::is_match` with the anchored pattern
/// `(^[a-zA-Z0-9_.+-]+@[a-zA-Z0-9-]+\.[a-zA-Z0-9-.]+$)`: the haystack
/// matches exactly when it splits into a nonempty run of local characters,
/// an `@`, a nonempty dot-free run of host characters, a dot, and a
/// nonempty run of suffix characters — which is what [`is_email`] states.
/// `Regex::new` cannot fail on this fixed, well-formed pattern.
#[verifier::external_body]
fn email_matches(s: &str) -> (r: bool)
    ensures
        r == is_email(s@),
{
    let re = regex::Regex::new(r"(^[a-zA-Z0-9_.+-]+@[a-zA-Z0-9-]+\.[a-zA-Z0-9-.]+$)").unwrap();
    re.is_match(s)
}

/// What the fraud pipeline accepts: the email detail must have the strict
/// address shape.
///
/// The scoring cascade that follows the address check — repeated random
/// Gaussian projections with a rectifier — draws fresh randomness on every
/// run and its numeric output is never consulted by this decision; it is a
/// computational cost stage, so it lives with the application layer beside
/// the randomness it consumes. A future decision rule that does consult a
/// score would be conjoined here.
pub open spec fn fraud_accepts(t: TicketModel) -> bool {
    t.res_email matches Some(e) && is_email(e)
}

/// The accept/reject decision of the fraud pipeline for a proposed
/// reservation whose details are filled in.
pub fn anti_fraud(ticket: &Ticket) -> (r: bool)
    requires
        ticket@.wf(),
        ticket@.taken,
    ensures
        r == fraud_accepts(ticket@),
{
    match &ticket.res_email {
        Some(email) => email_matches(email.as_str()),
        None => false,
    }
}

} // verus!
