//! Text helpers shared by the parser and the view model: lexicographic
//! ordering of timestamp text, substring search, keyword splitting and
//! trimming, and the case-folding the filter and search features rely on.

use vstd::prelude::*;

verus! {

/// Lexicographic order on character sequences, comparing code points.
/// This is the order the combined view sorts timestamp text by.
pub open spec fn lex_leq(a: Seq<char>, b: Seq<char>) -> bool
    decreases a.len(),
{
    if a.len() == 0 {
        true
    } else if b.len() == 0 {
        false
    } else if (a[0] as u32) < (b[0] as u32) {
        true
    } else if (a[0] as u32) > (b[0] as u32) {
        false
    } else {
        lex_leq(a.skip(1), b.skip(1))
    }
}

/// `lex_leq` is total: any two sequences are comparable.
pub proof fn lemma_lex_total(a: Seq<char>, b: Seq<char>)
    ensures
        lex_leq(a, b) || lex_leq(b, a),
    decreases a.len(),
{
    if a.len() != 0 && b.len() != 0 && (a[0] as u32) == (b[0] as u32) {
        lemma_lex_total(a.skip(1), b.skip(1));
    }
}

/// `lex_leq` is transitive.
pub proof fn lemma_lex_trans(a: Seq<char>, b: Seq<char>, c: Seq<char>)
    requires
        lex_leq(a, b),
        lex_leq(b, c),
    ensures
        lex_leq(a, c),
    decreases a.len(),
{
    if a.len() != 0 && b.len() != 0 && c.len() != 0 && (a[0] as u32) == (b[0] as u32) && (b[0]
        as u32) == (c[0] as u32) {
        lemma_lex_trans(a.skip(1), b.skip(1), c.skip(1));
    }
}

/// `needle` occurs contiguously somewhere in `hay`.
pub open spec fn contains_seq(hay: Seq<char>, needle: Seq<char>) -> bool {
    exists|i: int|
        0 <= i && i + needle.len() <= hay.len() && #[trigger] hay.subrange(i, i + needle.len())
            == needle
}

/// The case-folded form of a character sequence, as `str::to_lowercase`
/// computes it. It depends on the characters alone.
pub uninterp spec fn lower_of(s: Seq<char>) -> Seq<char>;

/// Relies on `str::to_lowercase`: the returned string is the lowercase
/// mapping of the input, a function of the input characters alone.
#[verifier::external_body]
pub fn to_lowercase(s: &str) -> (r: String)
    ensures
        r@ == lower_of(s@),
{
    s.to_lowercase()
}

/// The first index at or after `i` where `needle` occurs in `hay`, or `-1`.
pub open spec fn find_from(hay: Seq<char>, needle: Seq<char>, i: int) -> int
    decreases hay.len() - i,
{
    if !(0 <= i && i + needle.len() <= hay.len()) {
        -1
    } else if needle.len() == 0 {
        i
    } else if hay.subrange(i, i + needle.len()) == needle {
        i
    } else {
        find_from(hay, needle, i + 1)
    }
}

pub proof fn lemma_find_from_bounds(hay: Seq<char>, needle: Seq<char>, i: int)
    requires
        0 <= i,
    ensures
        find_from(hay, needle, i) == -1 || (i <= find_from(hay, needle, i) && find_from(
            hay,
            needle,
            i,
        ) + needle.len() <= hay.len()),
    decreases hay.len() - i,
{
    if 0 <= i && i + needle.len() <= hay.len() && needle.len() > 0 && hay.subrange(
        i,
        i + needle.len(),
    ) != needle {
        lemma_find_from_bounds(hay, needle, i + 1);
    }
}

/// Finds the first occurrence of `needle` in `hay`, by character index.
pub fn find_sub(hay: &str, needle: &str) -> (r: Option<usize>)
    ensures
        r is None ==> find_from(hay@, needle@, 0) == -1,
        r matches Some(p) ==> find_from(hay@, needle@, 0) == p as int,
{
    let n = hay.unicode_len();
    let m = needle.unicode_len();
    if m > n {
        return None;
    }
    if m == 0 {
        return Some(0);
    }
    let mut i: usize = 0;
    loop
        invariant
            0 <= i,
            i <= n - m + 1,
            0 < m <= n,
            n == hay@.len(),
            m == needle@.len(),
            find_from(hay@, needle@, 0) == find_from(hay@, needle@, i as int),
        ensures
            (i <= n - m && find_from(hay@, needle@, 0) == i as int) || (i == n - m + 1
                && find_from(hay@, needle@, 0) == -1),
        decreases n - i,
    {
        if i > n - m {
            break ;
        }
        let piece = hay.substring_char(i, i + m);
        if str_eq(piece, needle) {
            break ;
        }
        i = i + 1;
    }
    if i <= n - m {
        Some(i)
    } else {
        None
    }
}

proof fn lemma_find_iff_contains(hay: Seq<char>, needle: Seq<char>, i: int)
    requires
        0 <= i,
    ensures
        find_from(hay, needle, i) >= 0 <==> exists|k: int|
            i <= k && k + needle.len() <= hay.len() && #[trigger] hay.subrange(k, k + needle.len())
                == needle,
    decreases hay.len() - i,
{
    if !(i + needle.len() <= hay.len()) {
    } else if needle.len() == 0 {
        assert(hay.subrange(i, i + needle.len()) =~= needle);
    } else if hay.subrange(i, i + needle.len()) == needle {
    } else {
        lemma_find_iff_contains(hay, needle, i + 1);
        if exists|k: int|
            i <= k && k + needle.len() <= hay.len() && #[trigger] hay.subrange(k, k + needle.len())
                == needle {
            let k = choose|k: int|
                i <= k && k + needle.len() <= hay.len() && #[trigger] hay.subrange(
                    k,
                    k + needle.len(),
                ) == needle;
            assert(k != i);
            assert(i + 1 <= k && k + needle.len() <= hay.len() && hay.subrange(
                k,
                k + needle.len(),
            ) == needle);
        }
    }
}

/// Whether `needle` occurs contiguously inside `hay`.
pub fn str_contains(hay: &str, needle: &str) -> (r: bool)
    ensures
        r == contains_seq(hay@, needle@),
{
    proof {
        lemma_find_iff_contains(hay@, needle@, 0);
    }
    match find_sub(hay, needle) {
        Some(_) => true,
        None => false,
    }
}

/// A character the trimming step removes from keyword ends: an ASCII blank.
pub open spec fn is_blank_char(c: char) -> bool {
    c == ' ' || c == '\t' || c == '\r' || c == '\n'
}

/// The number of leading blank characters of `s`.
pub open spec fn leading_blanks(s: Seq<char>) -> int
    decreases s.len(),
{
    if s.len() == 0 {
        0
    } else if is_blank_char(s[0]) {
        1 + leading_blanks(s.skip(1))
    } else {
        0
    }
}

/// The number of trailing blank characters of `s`.
pub open spec fn trailing_blanks(s: Seq<char>) -> int
    decreases s.len(),
{
    if s.len() == 0 {
        0
    } else if is_blank_char(s[s.len() - 1]) {
        1 + trailing_blanks(s.take(s.len() - 1))
    } else {
        0
    }
}

/// `s` with leading and trailing ASCII blanks removed.
pub open spec fn trim_spec(s: Seq<char>) -> Seq<char> {
    let lead = leading_blanks(s);
    if lead == s.len() {
        Seq::empty()
    } else {
        s.subrange(lead, s.len() - trailing_blanks(s))
    }
}

proof fn lemma_leading_blanks_bounds(s: Seq<char>)
    ensures
        0 <= leading_blanks(s) <= s.len(),
        forall|j: int| 0 <= j < leading_blanks(s) ==> is_blank_char(s[j]),
        leading_blanks(s) < s.len() ==> !is_blank_char(s[leading_blanks(s)]),
    decreases s.len(),
{
    if s.len() != 0 && is_blank_char(s[0]) {
        lemma_leading_blanks_bounds(s.skip(1));
        assert forall|j: int| 0 <= j < leading_blanks(s) implies is_blank_char(s[j]) by {
            if j > 0 {
                assert(is_blank_char(s.skip(1)[j - 1]));
            }
        }
    }
}

proof fn lemma_trailing_blanks_bounds(s: Seq<char>)
    ensures
        0 <= trailing_blanks(s) <= s.len(),
        forall|j: int| s.len() - trailing_blanks(s) <= j < s.len() ==> is_blank_char(s[j]),
        trailing_blanks(s) < s.len() ==> !is_blank_char(s[s.len() - trailing_blanks(s) - 1]),
    decreases s.len(),
{
    if s.len() != 0 && is_blank_char(s[s.len() - 1]) {
        lemma_trailing_blanks_bounds(s.take(s.len() - 1));
        assert forall|j: int| s.len() - trailing_blanks(s) <= j < s.len() implies is_blank_char(
            s[j],
        ) by {
            if j < s.len() - 1 {
                assert(is_blank_char(s.take(s.len() - 1)[j]));
            }
        }
    }
}

/// Removes leading and trailing ASCII blanks from `s`.
pub fn trim_blanks(s: &str) -> (r: String)
    ensures
        r@ == trim_spec(s@),
{
    let len = s.unicode_len();
    let mut start: usize = 0;
    while start < len && is_blank(s.get_char(start))
        invariant
            0 <= start <= len,
            len == s@.len(),
            forall|j: int| 0 <= j < start ==> is_blank_char(s@[j]),
        decreases len - start,
    {
        start = start + 1;
    }
    proof {
        lemma_leading_blanks_bounds(s@);
        lemma_leading_blanks_prefix(s@, start as int);
    }
    if start == len {
        return String::new();
    }
    let mut end: usize = len;
    while end > start && is_blank(s.get_char(end - 1))
        invariant
            start <= end <= len,
            len == s@.len(),
            start < len,
            !is_blank_char(s@[start as int]),
            forall|j: int| end <= j < len ==> is_blank_char(s@[j]),
        decreases end,
    {
        end = end - 1;
    }
    proof {
        lemma_trailing_blanks_bounds(s@);
        lemma_trailing_blanks_suffix(s@, end as int);
    }
    let r = s.substring_char(start, end);
    r.to_owned()
}

fn is_blank(c: char) -> (r: bool)
    ensures
        r == is_blank_char(c),
{
    c == ' ' || c == '\t' || c == '\r' || c == '\n'
}

proof fn lemma_leading_blanks_prefix(s: Seq<char>, k: int)
    requires
        0 <= k <= s.len(),
        forall|j: int| 0 <= j < k ==> is_blank_char(s[j]),
        k < s.len() ==> !is_blank_char(s[k]),
    ensures
        leading_blanks(s) == k,
    decreases s.len(),
{
    if s.len() != 0 && is_blank_char(s[0]) {
        assert(forall|j: int| 0 <= j < k - 1 ==> is_blank_char(#[trigger] s.skip(1)[j]));
        lemma_leading_blanks_prefix(s.skip(1), k - 1);
    }
}

proof fn lemma_trailing_blanks_suffix(s: Seq<char>, k: int)
    requires
        0 <= k <= s.len(),
        forall|j: int| k <= j < s.len() ==> is_blank_char(s[j]),
        k > 0 ==> !is_blank_char(s[k - 1]),
    ensures
        trailing_blanks(s) == s.len() - k,
    decreases s.len(),
{
    if s.len() != 0 && is_blank_char(s[s.len() - 1]) {
        assert(forall|j: int| k <= j < s.len() - 1 ==> is_blank_char(#[trigger] s.take(s.len() - 1)[j]));
        lemma_trailing_blanks_suffix(s.take(s.len() - 1), k);
    }
}

/// A path separator: the label of a tab is the part of its path after the
/// last one.
pub open spec fn is_path_sep(c: char) -> bool {
    c == '/' || c == '\\'
}

/// The number of trailing non-separator characters of `s`: the length of
/// the file-name part of a path.
pub open spec fn base_name_len(s: Seq<char>) -> int
    decreases s.len(),
{
    if s.len() == 0 {
        0
    } else if is_path_sep(s[s.len() - 1]) {
        0
    } else {
        1 + base_name_len(s.take(s.len() - 1))
    }
}

/// The part of `path` after its last path separator; the whole of it when
/// there is none.
pub open spec fn file_name_spec(path: Seq<char>) -> Seq<char> {
    path.skip(path.len() - base_name_len(path))
}

proof fn lemma_base_name_at(s: Seq<char>, k: int)
    requires
        0 <= k <= s.len(),
        forall|j: int| k <= j < s.len() ==> !is_path_sep(s[j]),
        k > 0 ==> is_path_sep(s[k - 1]),
    ensures
        base_name_len(s) == s.len() - k,
    decreases s.len(),
{
    if s.len() != 0 && !is_path_sep(s[s.len() - 1]) {
        assert(forall|j: int| k <= j < s.len() - 1 ==> !is_path_sep(#[trigger] s.take(
            s.len() - 1,
        )[j]));
        lemma_base_name_at(s.take(s.len() - 1), k);
    }
}

/// The file-name part of `path`: what follows the last `/` or `\`.
pub fn file_name_of(path: &str) -> (r: String)
    ensures
        r@ == file_name_spec(path@),
{
    let len = path.unicode_len();
    let mut start: usize = len;
    while start > 0 && !is_sep(path.get_char(start - 1))
        invariant
            0 <= start <= len,
            len == path@.len(),
            forall|j: int| start <= j < len ==> !is_path_sep(path@[j]),
        decreases start,
    {
        start = start - 1;
    }
    proof {
        lemma_base_name_at(path@, start as int);
    }
    let r = path.substring_char(start, len);
    r.to_owned()
}

fn is_sep(c: char) -> (r: bool)
    ensures
        r == is_path_sep(c),
{
    c == '/' || c == '\\'
}

/// Index of the first occurrence of `sep` in `s`, or `s.len()` if there
/// is none.
pub open spec fn first_sep(s: Seq<char>, sep: char) -> int
    decreases s.len(),
{
    if s.len() == 0 {
        0
    } else if s[0] == sep {
        0
    } else {
        1 + first_sep(s.skip(1), sep)
    }
}

proof fn lemma_first_sep_at(s: Seq<char>, sep: char, k: int)
    requires
        0 <= k <= s.len(),
        forall|j: int| 0 <= j < k ==> s[j] != sep,
        k < s.len() ==> s[k] == sep,
    ensures
        first_sep(s, sep) == k,
    decreases s.len(),
{
    if s.len() != 0 && s[0] != sep {
        assert(forall|j: int| 0 <= j < k - 1 ==> #[trigger] s.skip(1)[j] != sep);
        lemma_first_sep_at(s.skip(1), sep, k - 1);
    }
}

/// The pieces of `s` between occurrences of `sep`, in order. A string
/// without the separator is one piece; every separator separates two
/// pieces, so `"a,"` split at commas gives `"a"` and an empty piece.
pub open spec fn split_char_spec(s: Seq<char>, sep: char) -> Seq<Seq<char>>
    decreases s.len(),
{
    let i = first_sep(s, sep);
    if !(0 <= i < s.len()) {
        seq![s]
    } else {
        seq![s.take(i)] + split_char_spec(s.skip(i + 1), sep)
    }
}

/// The comma-separated pieces of `s`.
pub open spec fn split_commas_spec(s: Seq<char>) -> Seq<Seq<char>> {
    split_char_spec(s, ',')
}

/// Splits `s` at each occurrence of `sep`, keeping empty pieces.
pub fn split_char(s: &str, sep: char) -> (r: Vec<String>)
    ensures
        r.deep_view() == split_char_spec(s@, sep),
{
    let len = s.unicode_len();
    let mut parts: Vec<String> = Vec::new();
    let mut seg_start: usize = 0;
    let mut i: usize = 0;
    proof {
        assert(s@.skip(0) =~= s@);
        assert(parts.deep_view() =~= Seq::<Seq<char>>::empty());
        assert(parts.deep_view() + split_commas_spec(s@) =~= split_commas_spec(s@));
    }
    while i < len
        invariant
            0 <= seg_start <= i <= len,
            len == s@.len(),
            forall|j: int| seg_start <= j < i ==> s@[j] != sep,
            parts.deep_view() + split_char_spec(s@.skip(seg_start as int), sep) == split_char_spec(
                s@,
                sep,
            ),
        decreases len - i,
    {
        if s.get_char(i) == sep {
            let piece = s.substring_char(seg_start, i).to_owned();
            proof {
                let rest = s@.skip(seg_start as int);
                assert(forall|j: int|
                    0 <= j < i - seg_start ==> rest[j] == s@[seg_start + j] && rest[j] != sep);
                lemma_first_sep_at(rest, sep, i - seg_start);
                assert(rest.take(i - seg_start) =~= s@.subrange(seg_start as int, i as int));
                assert(rest.skip(i - seg_start + 1) =~= s@.skip(i + 1));
                assert(parts.deep_view().push(piece@) =~= parts.deep_view() + seq![piece@]);
                assert((parts.deep_view() + seq![piece@]) + split_char_spec(s@.skip(i + 1), sep)
                    =~= parts.deep_view() + (seq![rest.take(i - seg_start)] + split_char_spec(
                    rest.skip(i - seg_start + 1),
                    sep,
                )));
            }
            parts.push(piece);
            seg_start = i + 1;
        }
        i = i + 1;
    }
    let piece = s.substring_char(seg_start, len).to_owned();
    proof {
        let rest = s@.skip(seg_start as int);
        assert(forall|j: int|
            0 <= j < len - seg_start ==> rest[j] == s@[seg_start + j] && rest[j] != sep);
        lemma_first_sep_at(rest, sep, len - seg_start);
        assert(rest =~= s@.subrange(seg_start as int, len as int));
        assert(parts.deep_view().push(piece@) =~= parts.deep_view() + seq![rest]);
    }
    parts.push(piece);
    parts
}

/// Splits `s` at commas, keeping empty pieces.
pub fn split_commas(s: &str) -> (r: Vec<String>)
    ensures
        r.deep_view() == split_commas_spec(s@),
{
    split_char(s, ',')
}

/// Some keyword of `kws` occurs, case-folded, inside the case-folded `msg`.
pub open spec fn matches_keywords(msg: Seq<char>, kws: Seq<Seq<char>>) -> bool {
    exists|k: int| 0 <= k < kws.len() && contains_seq(lower_of(msg), lower_of(kws[k]))
}

/// Case-insensitive OR-search: does `msg` contain any of the keywords?
pub fn matches_any(msg: &str, keywords: &Vec<String>) -> (r: bool)
    ensures
        r == matches_keywords(msg@, keywords.deep_view()),
{
    let msg_lower = to_lowercase(msg);
    let n = keywords.len();
    let mut k: usize = 0;
    while k < n
        invariant
            0 <= k <= n,
            n == keywords.len(),
            msg_lower@ == lower_of(msg@),
            forall|j: int|
                0 <= j < k ==> !contains_seq(lower_of(msg@), lower_of(keywords.deep_view()[j])),
        decreases n - k,
    {
        let kw_lower = to_lowercase(keywords[k].as_str());
        proof {
            assert(keywords.deep_view()[k as int] == keywords@[k as int]@);
        }
        if str_contains(msg_lower.as_str(), kw_lower.as_str()) {
            return true;
        }
        k = k + 1;
    }
    false
}

/// Compares two strings in the lexicographic code-point order `lex_leq`.
pub fn lex_leq_str(a: &str, b: &str) -> (r: bool)
    ensures
        r == lex_leq(a@, b@),
{
    let a_len = a.unicode_len();
    let b_len = b.unicode_len();
    let mut i: usize = 0;
    proof {
        assert(a@.skip(0) =~= a@);
        assert(b@.skip(0) =~= b@);
    }
    loop
        invariant
            i <= a_len,
            i <= b_len,
            a_len == a@.len(),
            b_len == b@.len(),
            lex_leq(a@, b@) == lex_leq(a@.skip(i as int), b@.skip(i as int)),
        decreases a_len - i,
    {
        if i == a_len {
            return true;
        }
        if i == b_len {
            return false;
        }
        let ca = a.get_char(i);
        let cb = b.get_char(i);
        if (ca as u32) < (cb as u32) {
            return true;
        }
        if (ca as u32) > (cb as u32) {
            return false;
        }
        proof {
            assert(a@.skip(i as int).skip(1) =~= a@.skip(i + 1));
            assert(b@.skip(i as int).skip(1) =~= b@.skip(i + 1));
        }
        i = i + 1;
    }
}

/// `s` padded on the right with spaces up to width `w`; text wider than
/// `w` is kept whole.
pub open spec fn pad_spec(s: Seq<char>, w: int) -> Seq<char> {
    if s.len() >= w {
        s
    } else {
        s + Seq::new((w - s.len()) as nat, |i: int| ' ')
    }
}

/// Left-aligns `s` in a field of `w` characters.
pub fn pad_right(s: &str, w: usize) -> (r: String)
    ensures
        r@ == pad_spec(s@, w as int),
{
    let mut r = s.to_owned();
    let len = s.unicode_len();
    if len >= w {
        return r;
    }
    let mut k: usize = len;
    proof {
        reveal_strlit(" ");
        assert(r@ =~= s@ + Seq::new((k - len) as nat, |i: int| ' '));
    }
    while k < w
        invariant
            len <= k <= w,
            len == s@.len(),
            r@ == s@ + Seq::new((k - len) as nat, |i: int| ' '),
        decreases w - k,
    {
        r.append(" ");
        proof {
            reveal_strlit(" ");
            assert(r@ =~= s@ + Seq::new((k + 1 - len) as nat, |i: int| ' '));
        }
        k = k + 1;
    }
    r
}

/// Whether two strings hold the same characters.
pub fn str_eq(a: &str, b: &str) -> (r: bool)
    ensures
        r == (a@ == b@),
{
    let n = a.unicode_len();
    let m = b.unicode_len();
    if n != m {
        proof {
            assert(a@.len() != b@.len());
        }
        return false;
    }
    let mut i: usize = 0;
    while i < n
        invariant
            0 <= i <= n,
            n == a@.len(),
            n == b@.len(),
            forall|j: int| 0 <= j < i ==> a@[j] == b@[j],
        decreases n - i,
    {
        if a.get_char(i) != b.get_char(i) {
            return false;
        }
        i = i + 1;
    }
    proof {
        assert(a@ =~= b@);
    }
    true
}

} // verus!
