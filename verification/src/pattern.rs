//! The format recognizers the parser tries on each line: compiled regular
//! expressions, each paired with its pattern text so that contracts can
//! speak of the pattern as plain characters.

use vstd::prelude::*;

verus! {

#[verifier::external_type_specification]
#[verifier::external_body]
pub struct ExRegex(regex::Regex);

/// Whether `pattern` is a valid regular expression, that is, whether
/// `regex::Regex::new` accepts it. A function of the pattern text alone.
pub uninterp spec fn regex_valid(pattern: Seq<char>) -> bool;

/// What matching `pattern` against `line` yields: `None` when the pattern
/// does not match, otherwise the text of the `date`, `level` and `log`
/// capture groups of the first match, each empty where the group is absent
/// or unnamed in the pattern. A function of the pattern and line text alone.
pub uninterp spec fn match_of(pattern: Seq<char>, line: Seq<char>) -> Option<
    (Seq<char>, Seq<char>, Seq<char>),
>;

/// One format recognizer: a compiled regular expression kept together with
/// the text it was compiled from.
pub struct Pattern {
    text: String,
    re: regex::Regex,
}

impl View for Pattern {
    type V = Seq<char>;

    /// The pattern text this recognizer was compiled from.
    closed spec fn view(&self) -> Seq<char> {
        self.text@
    }
}

impl Pattern {
    /// Relies on `regex::Regex::new`: compiling succeeds exactly on valid
    /// pattern syntax, and the compiled value matches as the text directs.
    #[verifier::external_body]
    pub fn new(text: &str) -> (r: Option<Pattern>)
        ensures
            r is Some <==> regex_valid(text@),
            r matches Some(p) ==> p@ == text@,
    {
        match regex::Regex::new(text) {
            Ok(re) => Some(Pattern { text: text.to_owned(), re }),
            Err(_) => None,
        }
    }

    /// Relies on `regex::Regex::captures` and `regex::Captures::name`: the
    /// first match of this pattern on `line`, reduced to the text of its
    /// `date`, `level` and `log` groups; the result is a function of the
    /// pattern text and the line alone.
    #[verifier::external_body]
    pub fn captures(&self, line: &str) -> (r: Option<(String, String, String)>)
        ensures
            r is Some <==> match_of(self@, line@) is Some,
            r matches Some(t) ==> match_of(self@, line@) == Some((t.0@, t.1@, t.2@)),
    {
        match self.re.captures(line) {
            None => None,
            Some(c) => Some((
                c.name("date").map_or(String::new(), |m| m.as_str().to_owned()),
                c.name("level").map_or(String::new(), |m| m.as_str().to_owned()),
                c.name("log").map_or(String::new(), |m| m.as_str().to_owned()),
            )),
        }
    }
}

/// The pattern texts of a recognizer table, in table order.
pub open spec fn texts_of(ps: Seq<Pattern>) -> Seq<Seq<char>> {
    ps.map_values(|p: Pattern| p@)
}

/// The built-in format recognizers, in the fixed priority order the parser
/// tries them: Windows installer (MSI), EA app, EA app vc_redist, EA app
/// IGO, EA app IGO proxy, Steam, Riot/Epic launcher, CEF.
pub open spec fn default_pattern_texts() -> Seq<Seq<char>> {
    seq![
        r#"^\s*[^\[]+\[(?P<date>\d{2}:\d{2}:\d{2}:\d+)\]:\s*(?P<log>.*)$"#@,
        r#"^\s*(?P<id>\d+)\s+\[(?P<date>[^\]]+)\]\s+PID:\s*(?P<pid>\d+)\s+TID:\s*(?P<tid>\d+)\s+(?P<level>\w+)\s+(?P<log>.*)$"#@,
        r#"^\s*\[[^\]]+\]\[(?P<date>\d{4}-\d{2}-\d{2}T\d{2}:\d{2}:\d{2})\]i\d+:\s*(?P<log>.*)$"#@,
        r#"^\s*(?P<level>\w+)\s+(?P<date>\d{2}:\d{2}:\d{2}\s+\w+)\s+\(\s+\d+\)\s+(?P<tid>\d+)\s+(?P<log>.*)$"#@,
        r#"^\s*(?P<level>\w+)\s+(?P<date>\d{2}:\d{2}:\d{2}\s+\w+)\s+(?P<tid>\d+)\s+\s+(?P<log>.*)$"#@,
        r#"^\s*\[(?P<date>\d{4}-\d{2}-\d{2}\s\d{2}:\d{2}:\d{2})\]\s+(?P<log>.*)$"#@,
        r#"^\s*\[(?P<date>\d{4}\.\d{2}\.\d{2}-\d{2}\.\d{2}\.\d{2}:\d+)\][^\]]+\](?P<log>.*)$"#@,
        r#"^\s*\[(?P<date>[^:]+):(?P<level>\w+):[^\]]+\]\s*(?P<log>.*)$"#@,
    ]
}

fn default_pattern_strings() -> (r: Vec<&'static str>)
    ensures
        r.deep_view() == default_pattern_texts(),
{
    let mut v: Vec<&'static str> = Vec::new();
    v.push(r#"^\s*[^\[]+\[(?P<date>\d{2}:\d{2}:\d{2}:\d+)\]:\s*(?P<log>.*)$"#);
    v.push(
        r#"^\s*(?P<id>\d+)\s+\[(?P<date>[^\]]+)\]\s+PID:\s*(?P<pid>\d+)\s+TID:\s*(?P<tid>\d+)\s+(?P<level>\w+)\s+(?P<log>.*)$"#,
    );
    v.push(r#"^\s*\[[^\]]+\]\[(?P<date>\d{4}-\d{2}-\d{2}T\d{2}:\d{2}:\d{2})\]i\d+:\s*(?P<log>.*)$"#);
    v.push(
        r#"^\s*(?P<level>\w+)\s+(?P<date>\d{2}:\d{2}:\d{2}\s+\w+)\s+\(\s+\d+\)\s+(?P<tid>\d+)\s+(?P<log>.*)$"#,
    );
    v.push(
        r#"^\s*(?P<level>\w+)\s+(?P<date>\d{2}:\d{2}:\d{2}\s+\w+)\s+(?P<tid>\d+)\s+\s+(?P<log>.*)$"#,
    );
    v.push(r#"^\s*\[(?P<date>\d{4}-\d{2}-\d{2}\s\d{2}:\d{2}:\d{2})\]\s+(?P<log>.*)$"#);
    v.push(r#"^\s*\[(?P<date>\d{4}\.\d{2}\.\d{2}-\d{2}\.\d{2}\.\d{2}:\d+)\][^\]]+\](?P<log>.*)$"#);
    v.push(r#"^\s*\[(?P<date>[^:]+):(?P<level>\w+):[^\]]+\]\s*(?P<log>.*)$"#);
    proof {
        assert(v.deep_view() =~= default_pattern_texts());
    }
    v
}

/// Builds the built-in recognizer table: each default pattern that compiles,
/// in priority order.
pub fn default_patterns() -> (r: Vec<Pattern>)
    ensures
        texts_of(r@) == default_pattern_texts().filter(|t: Seq<char>| regex_valid(t)),
{
    let strs = default_pattern_strings();
    let mut r: Vec<Pattern> = Vec::new();
    let n = strs.len();
    let mut i: usize = 0;
    proof {
        assert(texts_of(r@) =~= Seq::<Seq<char>>::empty());
        assert(strs.deep_view().take(0) =~= Seq::<Seq<char>>::empty());
        crate::seq_util::lemma_filter_empty(|t: Seq<char>| regex_valid(t));
    }
    while i < n
        invariant
            0 <= i <= n,
            n == strs.len(),
            strs.deep_view() == default_pattern_texts(),
            texts_of(r@) == strs.deep_view().take(i as int).filter(
                |t: Seq<char>| regex_valid(t),
            ),
        decreases n - i,
    {
        let ghost pred = |t: Seq<char>| regex_valid(t);
        let ghost prefix = strs.deep_view().take(i as int);
        proof {
            assert(strs.deep_view().take(i + 1) =~= prefix.push(strs.deep_view()[i as int]));
            crate::seq_util::lemma_filter_push(prefix, pred, strs.deep_view()[i as int]);
        }
        match Pattern::new(strs[i]) {
            Some(p) => {
                proof {
                    assert(texts_of(r@.push(p)) =~= texts_of(r@).push(p@));
                }
                r.push(p);
            },
            None => {},
        }
        i = i + 1;
    }
    proof {
        assert(strs.deep_view().take(n as int) =~= strs.deep_view());
    }
    r
}

} // verus!
