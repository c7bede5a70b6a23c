use vstd::prelude::*;

use crate::map::StrMap;
use crate::text::{chars_of, find, find_from, find_from_exec, push_seq, slice_of};

verus! {

/// What stands in a trace where a secret value would.
pub open spec fn redaction_mark() -> Seq<char> {
    seq!['[', 'r', 'e', 'd', 'a', 'c', 't', 'e', 'd', ']']
}

/// The text with each occurrence of `v`, from left to right, replaced by the redaction
/// mark; an empty `v` leaves the text as it is.
pub open spec fn replace_all(text: Seq<char>, v: Seq<char>) -> Seq<char>
    decreases text.len(),
{
    if v.len() == 0 {
        text
    } else {
        match find(text, v) {
            None => text,
            Some(i) => if 0 <= i && i + v.len() <= text.len() {
                text.subrange(0, i) + redaction_mark() + replace_all(
                    text.subrange(i + v.len(), text.len() as int),
                    v,
                )
            } else {
                text
            },
        }
    }
}

/// The text with the values of the secret references redacted, one reference after the
/// other in key order.
pub open spec fn redact(text: Seq<char>, secrets: Seq<(String, String)>) -> Seq<char>
    decreases secrets.len(),
{
    if secrets.len() == 0 {
        text
    } else {
        replace_all(redact(text, secrets.drop_last()), secrets.last().1@)
    }
}

fn replace_all_exec(text: &Vec<char>, v: &Vec<char>) -> (r: Vec<char>)
    ensures
        r@ == replace_all(text@, v@),
{
    if v.len() == 0 {
        return slice_of(text, 0, text.len());
    }
    let mark = vec!['[', 'r', 'e', 'd', 'a', 'c', 't', 'e', 'd', ']'];
    assert(mark@ =~= redaction_mark());
    let mut out: Vec<char> = Vec::new();
    let mut rest = slice_of(text, 0, text.len());
    assert(rest@ =~= text@);
    assert(out@ + replace_all(rest@, v@) =~= replace_all(text@, v@));
    loop
        invariant
            v@.len() > 0,
            mark@ == redaction_mark(),
            out@ + replace_all(rest@, v@) == replace_all(text@, v@),
        decreases rest@.len(),
    {
        proof {
            crate::json::lemma_find_from_bounds(rest@, v@, 0);
        }
        match find_from_exec(&rest, v, 0) {
            None => {
                assert(find(rest@, v@) is None);
                push_seq(&mut out, &rest);
                return out;
            },
            Some(i) => {
                assert(find(rest@, v@) == Some(i as int));
                let n = rest.len();
                let m = v.len();
                assert(i + m <= n);
                let head = slice_of(&rest, 0, i);
                let tail = slice_of(&rest, i + m, n);
                let ghost before = out@;
                push_seq(&mut out, &head);
                push_seq(&mut out, &mark);
                assert(out@ + replace_all(tail@, v@) =~= before + replace_all(rest@, v@));
                rest = tail;
            },
        }
    }
}

/// The text with the values of the environment's secret references redacted.
pub fn redact_secrets(text: &Vec<char>, secrets: &StrMap<String>) -> (r: Vec<char>)
    ensures
        r@ == redact(text@, secrets.items()),
{
    let entries = secrets.entries();
    let mut cur = slice_of(text, 0, text.len());
    let mut k: usize = 0;
    assert(entries@.take(0) =~= Seq::<(String, String)>::empty());
    assert(cur@ =~= text@);
    while k < entries.len()
        invariant
            entries@ == secrets.items(),
            k <= entries@.len(),
            cur@ == redact(text@, entries@.take(k as int)),
        decreases entries.len() - k,
    {
        let v = chars_of(entries[k].1.as_str());
        cur = replace_all_exec(&cur, &v);
        assert(entries@.take(k + 1).drop_last() =~= entries@.take(k as int));
        k = k + 1;
    }
    assert(entries@.take(k as int) =~= entries@);
    cur
}

} // verus!
