//! Rendering of engine results into reply text: decimal numbers,
//! latency in milliseconds with two decimals, and the reply messages the
//! caller adapter sends back.

use vstd::prelude::*;
use crate::datefmt::{formattable_timestamp, formatted_date_of, get_date_with_default};
use crate::store::{CorpusError, Quote};
use crate::text::{chars_to_string, string_chars};

verus! {

/// The decimal digit character for `n` (`n < 10`).
pub open spec fn dec_digit(n: nat) -> char {
    (('0' as u32) + n as u32) as char
}

/// The decimal rendering of `n`, most significant digit first, no sign
/// and no leading zeroes (a single `'0'` for zero).
pub open spec fn dec_str(n: nat) -> Seq<char>
    decreases n,
{
    if n < 10 {
        seq![dec_digit(n)]
    } else {
        dec_str(n / 10).push(dec_digit(n % 10))
    }
}

/// The decimal rendering of `n`.
pub fn u64_to_string(n: u64) -> (r: String)
    ensures
        r@ == dec_str(n as nat),
{
    if n == 0 {
        let mut out: Vec<char> = Vec::new();
        out.push('0');
        proof {
            assert(out@ =~= dec_str(0));
        }
        return chars_to_string(&out);
    }
    let mut rev: Vec<char> = Vec::new();
    let mut cur: u64 = n;
    while cur > 0
        invariant
            cur > 0 ==> dec_str(n as nat) == dec_str(cur as nat) + rev@.reverse(),
            cur == 0 ==> dec_str(n as nat) == rev@.reverse(),
        decreases cur,
    {
        let ghost pre = rev@;
        let d: u8 = (cur % 10) as u8;
        let ch: char = (48u8 + d) as char;
        proof {
            assert(ch == dec_digit((cur % 10) as nat));
        }
        rev.push(ch);
        proof {
            assert(rev@.reverse() =~= seq![ch] + pre.reverse());
            if cur >= 10 {
                assert(dec_str(cur as nat) == dec_str((cur / 10) as nat).push(ch));
                assert(dec_str((cur / 10) as nat) + rev@.reverse() =~= dec_str(cur as nat)
                    + pre.reverse());
            } else {
                assert(dec_str(cur as nat) =~= seq![ch]);
                assert(rev@.reverse() =~= dec_str(cur as nat) + pre.reverse());
            }
        }
        cur = cur / 10;
    }
    let mut out: Vec<char> = Vec::new();
    let mut i: usize = rev.len();
    while i > 0
        invariant
            i <= rev@.len(),
            out@.len() == rev@.len() - i,
            forall|k: int| 0 <= k < out@.len() ==> out@[k] == rev@[rev@.len() - 1 - k],
        decreases i,
    {
        i -= 1;
        out.push(rev[i]);
    }
    proof {
        assert(out@ =~= rev@.reverse());
    }
    chars_to_string(&out)
}

/// Whether `c` is a decimal digit.
pub open spec fn is_digit(c: char) -> bool {
    '0' <= c && c <= '9'
}

/// The value of the digit `c` (zero for non-digits).
pub open spec fn digit_val(c: char) -> nat {
    if is_digit(c) {
        ((c as u32) - ('0' as u32)) as nat
    } else {
        0
    }
}

/// The number that the digit string `s` denotes.
pub open spec fn digits_val(s: Seq<char>) -> nat
    decreases s.len(),
{
    if s.len() == 0 {
        0
    } else {
        digits_val(s.drop_last()) * 10 + digit_val(s.last())
    }
}

pub proof fn lemma_digits_prefix_le(s: Seq<char>, i: int)
    requires
        0 <= i <= s.len(),
    ensures
        digits_val(s.take(i)) <= digits_val(s),
    decreases s.len() - i,
{
    if i == s.len() {
        assert(s.take(i) =~= s);
    } else {
        assert(s.take(i + 1).drop_last() =~= s.take(i));
        assert(digits_val(s.take(i + 1)) == digits_val(s.take(i)) * 10 + digit_val(
            s.take(i + 1).last(),
        ));
        lemma_digits_prefix_le(s, i + 1);
    }
}

/// Parses a record id: the digits' value when `s` is a non-empty string
/// of decimal digits whose value fits an `i64`, `None` otherwise.
pub fn parse_id(s: &str) -> (r: Option<i64>)
    ensures
        r is Some <==> (s@.len() > 0 && (forall|k: int| 0 <= k < s@.len() ==> is_digit(s@[k]))
            && digits_val(s@) <= 0x7fff_ffff_ffff_ffff),
        r matches Some(v) ==> v == digits_val(s@),
{
    let v = string_chars(s);
    let n = v.len();
    if n == 0 {
        return None;
    }
    let mut acc: u128 = 0;
    let mut i: usize = 0;
    proof {
        assert(s@.take(0) =~= Seq::<char>::empty());
    }
    while i < n
        invariant
            i <= n,
            n == v@.len(),
            v@ == s@,
            forall|k: int| 0 <= k < i ==> is_digit(s@[k]),
            acc == digits_val(s@.take(i as int)),
            acc <= 0x7fff_ffff_ffff_ffff,
        decreases n - i,
    {
        let c = v[i];
        if !('0' <= c && c <= '9') {
            return None;
        }
        let d: u128 = ((c as u8) - 48) as u128;
        proof {
            assert(s@.take(i + 1).drop_last() =~= s@.take(i as int));
            assert(s@.take(i + 1).last() == s@[i as int]);
            assert(d == digit_val(s@[i as int]));
        }
        acc = acc * 10 + d;
        if acc > 0x7fff_ffff_ffff_ffffu128 {
            proof {
                lemma_digits_prefix_le(s@, i + 1);
            }
            return None;
        }
        i += 1;
    }
    proof {
        assert(s@.take(n as int) =~= s@);
    }
    Some(acc as i64)
}

/// Elapsed time in milliseconds with two decimals, rounded to the
/// nearest hundredth of a millisecond.
pub open spec fn ms_str(micros: u64) -> Seq<char> {
    let c = ((micros + 5) / 10) as nat;
    dec_str(c / 100) + seq!['.'] + (if c % 100 < 10 {
        seq!['0']
    } else {
        Seq::<char>::empty()
    }) + dec_str(c % 100)
}

/// The elapsed microseconds rendered as milliseconds with two decimals.
pub fn ms_to_string(micros: u64) -> (r: String)
    ensures
        r@ == ms_str(micros),
{
    let c: u64 = (((micros as u128) + 5) / 10) as u64;
    proof {
        assert((((micros as u128) + 5) / 10) as u64 == ((micros + 5) / 10) as nat);
    }
    let whole = u64_to_string(c / 100);
    let frac = u64_to_string(c % 100);
    let mut out = whole;
    out.append(".");
    if c % 100 < 10 {
        out.append("0");
    }
    out.append(frac.as_str());
    proof {
        reveal_strlit(".");
        reveal_strlit("0");
        assert("."@ =~= seq!['.']);
        assert("0"@ =~= seq!['0']);
        assert(out@ =~= ms_str(micros));
    }
    out
}

/// A fully rendered quote: the data fields a reply is built from.
pub struct RenderedQuote {
    pub id: i64,
    pub text: String,
    pub submitter: String,
    pub submitted: String,
    pub elapsed_micros: u64,
}

/// Renders a record for presentation: the timestamp becomes the
/// formatted date, or `"N/A"` when absent or unrenderable.
pub fn render_quote(q: &Quote, elapsed_micros: u64) -> (r: RenderedQuote)
    ensures
        r.id == q.id,
        r.text@ == q@.text,
        r.submitter@ == q@.submitter,
        r.elapsed_micros == elapsed_micros,
        q@.submitted matches Some(s) ==> (r.submitted@ == formatted_date_of(s)
            || r.submitted@ == "N/A"@),
        q@.submitted matches Some(s) ==> (formattable_timestamp(s) ==> r.submitted@
            == formatted_date_of(s)),
        q@.submitted is None ==> r.submitted@ == "N/A"@,
{
    RenderedQuote {
        id: q.id,
        text: q.quote.clone(),
        submitter: q.submitter.clone(),
        submitted: get_date_with_default(&q.submitted, "N/A"),
        elapsed_micros,
    }
}

/// Renders a whole lookup result, passing errors through.
pub fn render_result(result: Result<Quote, CorpusError>, elapsed_micros: u64) -> (r: Result<
    RenderedQuote,
    CorpusError,
>)
    ensures
        result matches Err(e) ==> (r matches Err(e2) && e2 == e),
        result matches Ok(q) ==> (r matches Ok(rq) && {
            &&& rq.id == q.id
            &&& rq.text@ == q@.text
            &&& rq.submitter@ == q@.submitter
            &&& rq.elapsed_micros == elapsed_micros
            &&& (q@.submitted matches Some(s) ==> (rq.submitted@ == formatted_date_of(s)
                || rq.submitted@ == "N/A"@))
            &&& (q@.submitted matches Some(s) ==> (formattable_timestamp(s) ==> rq.submitted@
                == formatted_date_of(s)))
            &&& (q@.submitted is None ==> rq.submitted@ == "N/A"@)
        }),
{
    match result {
        Ok(q) => Ok(render_quote(&q, elapsed_micros)),
        Err(e) => Err(e),
    }
}

/// The reply text for a rendered quote: id in brackets, the text, then
/// the attribution line; the submitter clause is omitted entirely when
/// the submitter is blank.
pub open spec fn quote_message_seq(r: RenderedQuote) -> Seq<char> {
    "["@ + dec_str(r.id as nat) + "] "@ + r.text@ + "\n\n*Submitted "@ + (if r.submitter@.len()
        > 0 {
        "by "@ + r.submitter@ + " "@
    } else {
        Seq::<char>::empty()
    }) + "on "@ + r.submitted@ + " ["@ + ms_str(r.elapsed_micros) + "ms]*"@
}

/// The reply for a quote lookup: the rendered quote's reply text, or
/// the fixed message for each recoverable failure.
pub fn quote_message(result: &Result<RenderedQuote, CorpusError>) -> (r: String)
    requires
        result matches Ok(q) ==> q.id >= 0,
    ensures
        result matches Ok(q) ==> r@ == quote_message_seq(*q),
        result matches Err(e) ==> (if e == CorpusError::NotFound || e
            == CorpusError::EmptyCorpus || e == CorpusError::NoMatch {
            r@ == "No quote found."@
        } else {
            r@ == "Querying error."@
        }),
{
    match result {
        Ok(q) => {
            let id_str = u64_to_string(q.id as u64);
            let ms = ms_to_string(q.elapsed_micros);
            let mut out = String::new();
            out.append("[");
            out.append(id_str.as_str());
            out.append("] ");
            out.append(q.text.as_str());
            out.append("\n\n*Submitted ");
            if q.submitter.as_str().unicode_len() > 0 {
                out.append("by ");
                out.append(q.submitter.as_str());
                out.append(" ");
            }
            out.append("on ");
            out.append(q.submitted.as_str());
            out.append(" [");
            out.append(ms.as_str());
            out.append("ms]*");
            proof {
                assert(out@ =~= quote_message_seq(*q));
            }
            out
        },
        Err(e) => {
            match e {
                CorpusError::NotFound => "No quote found.".to_owned(),
                CorpusError::EmptyCorpus => "No quote found.".to_owned(),
                CorpusError::NoMatch => "No quote found.".to_owned(),
                _ => "Querying error.".to_owned(),
            }
        },
    }
}

/// The reply after adding a quote.
pub fn add_reply(result: &Result<i64, CorpusError>) -> (r: String)
    requires
        result matches Ok(id) ==> id >= 0,
    ensures
        result matches Ok(id) ==> r@ == "Added quote (id: "@ + dec_str(id as nat) + ")"@,
        result is Err ==> r@ == "Failed to add quote."@,
{
    match result {
        Ok(id) => {
            let mut out = String::new();
            out.append("Added quote (id: ");
            let id_str = u64_to_string(*id as u64);
            out.append(id_str.as_str());
            out.append(")");
            proof {
                assert(out@ =~= "Added quote (id: "@ + dec_str(*id as nat) + ")"@);
            }
            out
        },
        Err(_) => "Failed to add quote.".to_owned(),
    }
}

/// The reply after expunging a quote.
pub fn expunge_reply(result: &Result<Quote, CorpusError>) -> (r: String)
    requires
        result matches Ok(q) ==> q.id >= 0,
    ensures
        result matches Ok(q) ==> r@ == "Expunged quote id: "@ + dec_str(q.id as nat),
        result is Err ==> r@ == "Failed to expunge quote."@,
{
    match result {
        Ok(q) => {
            let mut out = String::new();
            out.append("Expunged quote id: ");
            let id_str = u64_to_string(q.id as u64);
            out.append(id_str.as_str());
            proof {
                assert(out@ =~= "Expunged quote id: "@ + dec_str(q.id as nat));
            }
            out
        },
        Err(_) => "Failed to expunge quote.".to_owned(),
    }
}

/// The rate-limit notice with the wait in whole seconds.
pub fn ratelimit_message(secs: u64) -> (r: String)
    ensures
        r@ == "Try this again in "@ + dec_str(secs as nat) + " seconds."@,
{
    let mut out = String::new();
    out.append("Try this again in ");
    let s = u64_to_string(secs);
    out.append(s.as_str());
    out.append(" seconds.");
    proof {
        assert(out@ =~= "Try this again in "@ + dec_str(secs as nat) + " seconds."@);
    }
    out
}

/// The slap target: the raw argument text, or a mention of the caller
/// when no argument was given.
pub fn slap_target(args: &str, author_id: u64) -> (r: String)
    ensures
        args@.len() == 0 ==> r@ == "<@"@ + dec_str(author_id as nat) + ">"@,
        args@.len() > 0 ==> r@ == args@,
{
    if args.unicode_len() == 0 {
        let mut out = String::new();
        out.append("<@");
        let s = u64_to_string(author_id);
        out.append(s.as_str());
        out.append(">");
        proof {
            assert(out@ =~= "<@"@ + dec_str(author_id as nat) + ">"@);
        }
        out
    } else {
        args.to_owned()
    }
}

/// The slap reply.
pub fn slap_message(bot_name: &str, target: &str) -> (r: String)
    ensures
        r@ == bot_name@ + " slaps "@ + target@ + " around a bit with a large trout"@,
{
    let mut out = bot_name.to_owned();
    out.append(" slaps ");
    out.append(target);
    out.append(" around a bit with a large trout");
    proof {
        assert(out@ =~= bot_name@ + " slaps "@ + target@
            + " around a bit with a large trout"@);
    }
    out
}

} // verus!
