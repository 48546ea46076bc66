//! Pretty-printing of JSON embedded in a record's message: the text
//! between the first `{` and the last `}` is re-rendered with indentation
//! when it parses as JSON, and the surrounding text is kept.

use vstd::prelude::*;

verus! {

/// The pretty-printed form of `s` when `s` parses as a JSON value, as
/// `serde_json` renders it; `None` when `s` is not JSON. A function of the
/// text alone.
pub uninterp spec fn pretty_json_of(s: Seq<char>) -> Option<Seq<char>>;

/// Relies on `serde_json::from_str::<Value>` and
/// `serde_json::to_string_pretty`: parses `s` and re-renders it with
/// indentation; what comes back depends on the text alone.
#[verifier::external_body]
fn pretty_json(s: &str) -> (r: Option<String>)
    ensures
        r is Some <==> pretty_json_of(s@) is Some,
        r matches Some(t) ==> pretty_json_of(s@) == Some(t@),
{
    match serde_json::from_str::<serde_json::Value>(s) {
        Err(_) => None,
        Ok(value) => serde_json::to_string_pretty(&value).ok(),
    }
}

/// Index of the first `{` of `s`, or `s.len()` when there is none.
pub open spec fn first_brace(s: Seq<char>) -> int
    decreases s.len(),
{
    if s.len() == 0 {
        0
    } else if s[0] == '{' {
        0
    } else {
        1 + first_brace(s.skip(1))
    }
}

/// Index of the last `}` of `s`, or `-1` when there is none.
pub open spec fn last_brace(s: Seq<char>) -> int
    decreases s.len(),
{
    if s.len() == 0 {
        -1
    } else if s[s.len() - 1] == '}' {
        s.len() - 1
    } else {
        last_brace(s.take(s.len() - 1))
    }
}

/// What beautifying a log line yields: when the line encloses braces and
/// the enclosed text pretty-prints as JSON, the line with that part
/// re-rendered; otherwise nothing.
pub open spec fn beautified_of(log: Seq<char>) -> Option<Seq<char>> {
    let a = first_brace(log);
    let b = last_brace(log);
    if !(0 <= a <= b < log.len()) {
        None
    } else {
        match pretty_json_of(log.subrange(a, b + 1)) {
            None => None,
            Some(pretty) => Some(log.take(a) + pretty + log.skip(b)),
        }
    }
}

proof fn lemma_first_brace_at(s: Seq<char>, k: int)
    requires
        0 <= k <= s.len(),
        forall|j: int| 0 <= j < k ==> s[j] != '{',
        k < s.len() ==> s[k] == '{',
    ensures
        first_brace(s) == k,
    decreases s.len(),
{
    if s.len() != 0 && s[0] != '{' {
        assert(forall|j: int| 0 <= j < k - 1 ==> #[trigger] s.skip(1)[j] != '{');
        lemma_first_brace_at(s.skip(1), k - 1);
    }
}

proof fn lemma_last_brace_at(s: Seq<char>, k: int)
    requires
        -1 <= k < s.len(),
        forall|j: int| k < j < s.len() ==> s[j] != '}',
        k >= 0 ==> s[k] == '}',
    ensures
        last_brace(s) == k,
    decreases s.len(),
{
    if s.len() != 0 && s[s.len() - 1] != '}' {
        assert(forall|j: int| k < j < s.len() - 1 ==> #[trigger] s.take(s.len() - 1)[j] != '}');
        lemma_last_brace_at(s.take(s.len() - 1), k);
    }
}

/// Re-renders the JSON enclosed between the first `{` and last `}` of
/// `log`, keeping the text around it; `None` when there is no such pair or
/// the enclosed text is not JSON.
pub fn beatify_enclosed_json(log: &str) -> (r: Option<String>)
    ensures
        r is Some <==> beautified_of(log@) is Some,
        r matches Some(t) ==> beautified_of(log@) == Some(t@),
{
    let len = log.unicode_len();
    let mut a: usize = 0;
    while a < len && log.get_char(a) != '{'
        invariant
            0 <= a <= len,
            len == log@.len(),
            forall|j: int| 0 <= j < a ==> log@[j] != '{',
        decreases len - a,
    {
        a = a + 1;
    }
    proof {
        lemma_first_brace_at(log@, a as int);
    }
    if a == len {
        return None;
    }
    let mut b: usize = len;
    while b > 0 && log.get_char(b - 1) != '}'
        invariant
            0 <= b <= len,
            len == log@.len(),
            forall|j: int| b <= j < len ==> log@[j] != '}',
        decreases b,
    {
        b = b - 1;
    }
    proof {
        lemma_last_brace_at(log@, b as int - 1);
    }
    if b == 0 || b - 1 < a {
        return None;
    }
    let part = log.substring_char(a, b);
    match pretty_json(part) {
        None => None,
        Some(pretty) => {
            let mut out = log.substring_char(0, a).to_owned();
            out.append(pretty.as_str());
            let tail = log.substring_char(b - 1, len);
            out.append(tail);
            proof {
                assert(log@.subrange(a as int, b as int) == log@.subrange(
                    first_brace(log@),
                    last_brace(log@) + 1,
                ));
                assert(out@ == log@.take(first_brace(log@)) + pretty@ + log@.skip(
                    last_brace(log@),
                ));
            }
            Some(out)
        },
    }
}

} // verus!
