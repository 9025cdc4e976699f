//! CQ codes: the bot protocol's inline bracket codes (`[CQ:at,qq=1]`)
//! embedded in plain message text. The lexer splits a message into text
//! runs, `at` codes and unknown codes; each segment renders to the text a
//! viewer should see.

use vstd::prelude::*;
use vstd::string::StrSliceExecFns;
use vstd::string::StringExecFns;

use crate::danmaku::opt_str_view;

verus! {

/// What htmlize's unescape returns: the input with every valid HTML
/// entity expanded. It depends on the input text alone.
pub uninterp spec fn html_unescaped(s: Seq<char>) -> Seq<char>;

/// Relies on `htmlize::unescape`: expands all valid HTML entities in the
/// text.
#[verifier::external_body]
fn unescape_html(s: &str) -> (r: String)
    ensures
        r@ == html_unescaped(s@),
{
    htmlize::unescape(s).into_owned()
}

/// Whether `pat` occurs in `s` at position `k`.
pub open spec fn occurs_at(s: Seq<char>, pat: Seq<char>, k: int) -> bool {
    0 <= k && k + pat.len() <= s.len() && s.subrange(k, k + pat.len()) == pat
}

/// The position of the first occurrence of `pat` in `s`, if any.
pub open spec fn first_occur(s: Seq<char>, pat: Seq<char>) -> Option<int>
    decreases s.len(),
{
    if s.len() < pat.len() {
        None
    } else if s.take(pat.len() as int) == pat {
        Some(0int)
    } else if s.len() == pat.len() {
        None
    } else {
        match first_occur(s.drop_first(), pat) {
            Some(i) => Some(i + 1),
            None => None,
        }
    }
}

proof fn lemma_first_occur_at(s: Seq<char>, pat: Seq<char>, i: int)
    requires
        occurs_at(s, pat, i),
        forall|k: int| 0 <= k < i ==> !occurs_at(s, pat, k),
    ensures
        first_occur(s, pat) == Some(i),
    decreases i,
{
    if i == 0 {
        assert(s.take(pat.len() as int) =~= s.subrange(0, pat.len() as int));
    } else {
        assert(!occurs_at(s, pat, 0));
        assert(s.take(pat.len() as int) =~= s.subrange(0, pat.len() as int));
        let t = s.drop_first();
        assert(t.subrange(i - 1, i - 1 + pat.len()) =~= s.subrange(i, i + pat.len()));
        assert(occurs_at(t, pat, i - 1));
        assert forall|k: int| 0 <= k < i - 1 implies !occurs_at(t, pat, k) by {
            if k + pat.len() <= t.len() {
                assert(!occurs_at(s, pat, k + 1));
                assert(t.subrange(k, k + pat.len()) =~= s.subrange(k + 1, k + 1 + pat.len()));
            }
        }
        lemma_first_occur_at(t, pat, i - 1);
    }
}

proof fn lemma_first_occur_none(s: Seq<char>, pat: Seq<char>)
    requires
        forall|k: int| !occurs_at(s, pat, k),
    ensures
        first_occur(s, pat) is None,
    decreases s.len(),
{
    if s.len() >= pat.len() {
        assert(!occurs_at(s, pat, 0));
        assert(s.take(pat.len() as int) =~= s.subrange(0, pat.len() as int));
        if pat.len() == 0 {
            assert(s.subrange(0, 0) =~= pat);
            assert(occurs_at(s, pat, 0));
        } else {
            let t = s.drop_first();
            assert forall|k: int| 0 <= k && k + pat.len() <= t.len() implies !occurs_at(
                t,
                pat,
                k,
            ) by {
                assert(!occurs_at(s, pat, k + 1));
                assert(t.subrange(k, k + pat.len()) =~= s.subrange(k + 1, k + 1 + pat.len()));
            }
            lemma_first_occur_none(t, pat);
        }
    }
}

proof fn lemma_first_occur_bounds(s: Seq<char>, pat: Seq<char>)
    requires
        first_occur(s, pat) is Some,
    ensures
        0 <= first_occur(s, pat)->0,
        first_occur(s, pat)->0 + pat.len() <= s.len(),
    decreases s.len(),
{
    if s.len() > pat.len() && s.take(pat.len() as int) != pat {
        lemma_first_occur_bounds(s.drop_first(), pat);
    }
}

/// Whether `pat` occurs at position `i` of `s`.
fn matches_at(s: &str, i: usize, pat: &str) -> (r: bool)
    requires
        i <= s@.len(),
    ensures
        r == occurs_at(s@, pat@, i as int),
{
    let n = s.unicode_len();
    let m = pat.unicode_len();
    if m > n - i {
        return false;
    }
    let mut j: usize = 0;
    while j < m
        invariant
            n == s@.len(),
            m == pat@.len(),
            i + m <= n,
            0 <= j <= m,
            forall|k: int| 0 <= k < j ==> s@[i + k] == pat@[k],
        decreases m - j,
    {
        if s.get_char(i + j) != pat.get_char(j) {
            proof {
                assert(s@.subrange(i as int, i + m)[j as int] != pat@[j as int]);
            }
            return false;
        }
        j = j + 1;
    }
    proof {
        assert(s@.subrange(i as int, i + m) =~= pat@);
    }
    true
}

/// The first occurrence of `pat` in `s`, scanning left to right.
fn find_sub(s: &str, pat: &str) -> (r: Option<usize>)
    ensures
        match r {
            Some(i) => first_occur(s@, pat@) == Some(i as int),
            None => first_occur(s@, pat@) is None,
        },
{
    let n = s.unicode_len();
    let m = pat.unicode_len();
    if m > n {
        proof {
            lemma_first_occur_none(s@, pat@);
        }
        return None;
    }
    if m == 0 {
        proof {
            assert(occurs_at(s@, pat@, 0)) by {
                assert(s@.subrange(0, 0) =~= pat@);
            }
            lemma_first_occur_at(s@, pat@, 0);
        }
        return Some(0);
    }
    let mut i: usize = 0;
    while i <= n - m
        invariant
            n == s@.len(),
            m == pat@.len(),
            1 <= m <= n,
            0 <= i <= n - m + 1,
            forall|k: int| 0 <= k < i ==> !occurs_at(s@, pat@, k),
        decreases n - i,
    {
        if matches_at(s, i, pat) {
            proof {
                lemma_first_occur_at(s@, pat@, i as int);
            }
            return Some(i);
        }
        i = i + 1;
    }
    proof {
        lemma_first_occur_none(s@, pat@);
    }
    None
}

/// The number of characters of `s` before its first `,` or `]`, or the
/// whole length when there is none.
pub open spec fn delim_scan(s: Seq<char>) -> nat
    decreases s.len(),
{
    if s.len() == 0 {
        0
    } else if s[0] == ',' || s[0] == ']' {
        0
    } else {
        1 + delim_scan(s.drop_first())
    }
}

proof fn lemma_delim_scan(s: Seq<char>, j: int)
    requires
        0 <= j <= s.len(),
        forall|k: int| 0 <= k < j ==> s[k] != ',' && s[k] != ']',
        j < s.len() ==> s[j] == ',' || s[j] == ']',
    ensures
        delim_scan(s) == j,
    decreases j,
{
    if j > 0 {
        let t = s.drop_first();
        assert(forall|k: int| 0 <= k < j - 1 ==> t[k] == s[k + 1] && s[k + 1] != ','
            && s[k + 1] != ']');
        lemma_delim_scan(t, j - 1);
    }
}

/// The value of one argument of a CQ code: the text between the first
/// occurrence of `key` and the next `,` or `]`, HTML-unescaped; `None`
/// when the key, or a closing delimiter after it, is missing.
pub open spec fn cq_arg(code: Seq<char>, key: Seq<char>) -> Option<Seq<char>> {
    match first_occur(code, key) {
        None => None,
        Some(i) => {
            let after = code.skip(i + key.len());
            if delim_scan(after) < after.len() {
                Some(html_unescaped(after.take(delim_scan(after) as int)))
            } else {
                None
            }
        },
    }
}

/// Extracts one argument of a CQ code, as `cq_arg` describes it.
fn get_cq_arg(code: &str, key: &str) -> (r: Option<String>)
    ensures
        opt_str_view(r) == cq_arg(code@, key@),
{
    match find_sub(code, key) {
        None => None,
        Some(i) => {
            let n = code.unicode_len();
            proof {
                lemma_first_occur_bounds(code@, key@);
                assert(i + key@.len() <= code@.len());
            }
            let v0 = i + key.unicode_len();
            let ghost after = code@.skip(v0 as int);
            let mut e: usize = v0;
            while e < n && code.get_char(e) != ',' && code.get_char(e) != ']'
                invariant
                    n == code@.len(),
                    first_occur(code@, key@) == Some(i as int),
                    v0 == i + key@.len(),
                    v0 <= n,
                    after == code@.skip(v0 as int),
                    v0 <= e <= n,
                    forall|k: int| v0 <= k < e ==> code@[k] != ',' && code@[k] != ']',
                decreases n - e,
            {
                e = e + 1;
            }
            proof {
                assert(forall|k: int|
                    0 <= k < e - v0 ==> after[k] == code@[k + v0] && code@[k + v0] != ','
                        && code@[k + v0] != ']');
                if e < n {
                    assert(after[e - v0] == code@[e as int]);
                }
                lemma_delim_scan(after, e - v0);
            }
            if e == n {
                None
            } else {
                let value = code.substring_char(v0, e);
                proof {
                    assert(code@.subrange(v0 as int, e as int) =~= after.take(e - v0));
                }
                Some(unescape_html(value))
            }
        },
    }
}

/// The mathematical form of one lexed segment.
pub enum CQSegmentView {
    /// An `[CQ:at,...]` code, carried whole.
    At(Seq<char>),
    /// A run of plain text.
    Text(Seq<char>),
    /// Any other CQ code.
    Unknown,
}

/// One lexed segment of a CQ-coded message.
pub enum CQSegment {
    /// An `[CQ:at,...]` code, carried whole.
    At(String),
    /// A run of plain text.
    Text(String),
    /// Any other CQ code.
    Unknown,
}

impl View for CQSegment {
    type V = CQSegmentView;

    open spec fn view(&self) -> CQSegmentView {
        match self {
            CQSegment::At(code) => CQSegmentView::At(code@),
            CQSegment::Text(t) => CQSegmentView::Text(t@),
            CQSegment::Unknown => CQSegmentView::Unknown,
        }
    }
}

impl DeepView for CQSegment {
    type V = CQSegmentView;

    open spec fn deep_view(&self) -> CQSegmentView {
        self.view()
    }
}

/// The number of characters of `s` before its first `]`, or the whole
/// length when there is none.
pub open spec fn close_scan(s: Seq<char>) -> nat
    decreases s.len(),
{
    if s.len() == 0 {
        0
    } else if s[0] == ']' {
        0
    } else {
        1 + close_scan(s.drop_first())
    }
}

proof fn lemma_close_scan(s: Seq<char>, j: int)
    requires
        0 <= j <= s.len(),
        forall|k: int| 0 <= k < j ==> s[k] != ']',
        j < s.len() ==> s[j] == ']',
    ensures
        close_scan(s) == j,
    decreases j,
{
    if j > 0 {
        let t = s.drop_first();
        assert(forall|k: int| 0 <= k < j - 1 ==> t[k] == s[k + 1] && s[k + 1] != ']');
        lemma_close_scan(t, j - 1);
    }
}

/// The number of characters of `s` before its first `[`, or the whole
/// length when there is none.
pub open spec fn text_scan(s: Seq<char>) -> nat
    decreases s.len(),
{
    if s.len() == 0 {
        0
    } else if s[0] == '[' {
        0
    } else {
        1 + text_scan(s.drop_first())
    }
}

proof fn lemma_text_scan(s: Seq<char>, j: int)
    requires
        0 <= j <= s.len(),
        forall|k: int| 0 <= k < j ==> s[k] != '[',
        j < s.len() ==> s[j] == '[',
    ensures
        text_scan(s) == j,
    decreases j,
{
    if j > 0 {
        let t = s.drop_first();
        assert(forall|k: int| 0 <= k < j - 1 ==> t[k] == s[k + 1] && s[k + 1] != '[');
        lemma_text_scan(t, j - 1);
    }
}

/// Whether `s` begins with a closed CQ code: a `[CQ:` prefix and a `]`
/// with at least one character between the colon and the bracket.
pub open spec fn starts_cq(s: Seq<char>) -> bool {
    &&& s.len() >= 4
    &&& s.take(4) == ("[CQ:")@
    &&& close_scan(s) < s.len()
    &&& close_scan(s) >= 5
}

/// Whether `s` begins with a closed `at` code: a `[CQ:at,` prefix and a
/// `]` with at least one character after the comma.
pub open spec fn starts_at(s: Seq<char>) -> bool {
    &&& starts_cq(s)
    &&& s.len() >= 7
    &&& s.take(7) == ("[CQ:at,")@
    &&& close_scan(s) >= 8
}

/// The lexing of a CQ-coded message: a closed `[CQ:...]` becomes an `At`
/// or `Unknown` segment, a lone `[` or a run of plain characters becomes
/// a `Text` segment.
pub open spec fn cq_lex(s: Seq<char>) -> Seq<CQSegmentView>
    decreases s.len(),
{
    if s.len() == 0 {
        Seq::empty()
    } else if s[0] == '[' {
        if starts_cq(s) {
            let e = close_scan(s) as int;
            (if starts_at(s) {
                seq![CQSegmentView::At(s.take(e + 1))]
            } else {
                seq![CQSegmentView::Unknown]
            }) + cq_lex(s.skip(e + 1))
        } else {
            seq![CQSegmentView::Text(s.take(1))] + cq_lex(s.skip(1))
        }
    } else {
        let j = if text_scan(s) <= s.len() {
            text_scan(s) as int
        } else {
            s.len() as int
        };
        seq![CQSegmentView::Text(s.take(j))] + cq_lex(s.skip(j))
    }
}

/// The displayed text of one segment: plain text stands as it is, an
/// `at` code becomes `@` followed by its `name` argument (or its `qq`
/// argument, or nothing), any other code renders as nothing.
pub open spec fn seg_text(v: CQSegmentView) -> Seq<char> {
    match v {
        CQSegmentView::Text(t) => t,
        CQSegmentView::Unknown => Seq::empty(),
        CQSegmentView::At(code) => {
            match cq_arg(code, (",name=")@) {
                Some(name) => ("@")@ + name,
                None => match cq_arg(code, (",qq=")@) {
                    Some(qq) => ("@")@ + qq,
                    None => Seq::empty(),
                },
            }
        },
    }
}

/// The displayed texts of a lexed message, one per segment.
pub open spec fn seg_texts(segs: Seq<CQSegmentView>) -> Seq<Seq<char>> {
    segs.map_values(|v: CQSegmentView| seg_text(v))
}

impl CQSegment {
    /// Renders this segment as the text a viewer should see.
    pub fn to_text(&self) -> (r: String)
        ensures
            r@ == seg_text(self@),
    {
        match self {
            CQSegment::Text(t) => t.clone(),
            CQSegment::Unknown => String::new(),
            CQSegment::At(code) => {
                match get_cq_arg(code.as_str(), ",name=") {
                    Some(name) => String::from_str("@").concat(name.as_str()),
                    None => {
                        match get_cq_arg(code.as_str(), ",qq=") {
                            Some(qq) => String::from_str("@").concat(qq.as_str()),
                            None => String::new(),
                        }
                    },
                }
            },
        }
    }
}

/// Lexes a CQ-coded message into its segments.
fn lex_cq(s: &str) -> (r: Vec<CQSegment>)
    ensures
        r.deep_view() =~= cq_lex(s@),
{
    let n = s.unicode_len();
    let mut out: Vec<CQSegment> = Vec::new();
    let mut i: usize = 0;
    proof {
        reveal_strlit("[CQ:");
        reveal_strlit("[CQ:at,");
        assert(("[CQ:")@.len() == 4);
        assert(("[CQ:at,")@.len() == 7);
        assert(s@.skip(0) =~= s@);
        assert(out.deep_view() + cq_lex(s@) =~= cq_lex(s@));
    }
    while i < n
        invariant
            n == s@.len(),
            0 <= i <= n,
            cq_lex(s@) =~= out.deep_view() + cq_lex(s@.skip(i as int)),
        decreases n - i,
    {
        let ghost u = s@.skip(i as int);
        let ghost done = out.deep_view();
        let c = s.get_char(i);
        if c == '[' {
            let mut e: usize = i;
            while e < n && s.get_char(e) != ']'
                invariant
                    n == s@.len(),
                    i <= e <= n,
                    forall|k: int| i <= k < e ==> s@[k] != ']',
                decreases n - e,
            {
                e = e + 1;
            }
            proof {
                reveal_strlit("[CQ:");
                reveal_strlit("[CQ:at,");
                assert(forall|k: int| 0 <= k < e - i ==> u[k] == s@[k + i] && s@[k + i] != ']');
                if e < n {
                    assert(u[e - i] == s@[e as int]);
                }
                lemma_close_scan(u, e - i);
            }
            let is_cq = e < n && e - i >= 5 && matches_at(s, i, "[CQ:");
            if is_cq {
                proof {
                    assert(u.take(4) =~= s@.subrange(i as int, i + 4));
                    assert(starts_cq(u));
                }
                let is_at = e - i >= 8 && matches_at(s, i, "[CQ:at,");
                if is_at {
                    proof {
                        assert(u.take(7) =~= s@.subrange(i as int, i + 7));
                        assert(starts_at(u));
                    }
                    let tok = s.substring_char(i, e + 1);
                    proof {
                        assert(s@.subrange(i as int, e + 1) =~= u.take(e - i + 1));
                    }
                    out.push(CQSegment::At(tok.to_owned()));
                } else {
                    proof {
                        if u.len() >= 7 && u.take(7) == ("[CQ:at,")@ {
                            assert(occurs_at(s@, ("[CQ:at,")@, i as int)) by {
                                assert(s@.subrange(i as int, i + 7) =~= u.take(7));
                            }
                            assert(e - i == close_scan(u) && e - i < 8 ==> e < i + 8);
                        }
                        assert(!starts_at(u));
                    }
                    out.push(CQSegment::Unknown);
                }
                proof {
                    assert(u.skip(e - i + 1) =~= s@.skip(e + 1));
                    assert(out.deep_view() =~= done.push(cq_lex(u)[0]));
                    assert(cq_lex(s@) =~= out.deep_view() + cq_lex(s@.skip(e + 1)));
                }
                i = e + 1;
            } else {
                proof {
                    if u.len() >= 4 && u.take(4) == ("[CQ:")@ {
                        assert(occurs_at(s@, ("[CQ:")@, i as int)) by {
                            assert(s@.subrange(i as int, i + 4) =~= u.take(4));
                        }
                    }
                    assert(!starts_cq(u));
                }
                let tok = s.substring_char(i, i + 1);
                proof {
                    assert(s@.subrange(i as int, i + 1) =~= u.take(1));
                    assert(u.skip(1) =~= s@.skip(i + 1));
                }
                out.push(CQSegment::Text(tok.to_owned()));
                proof {
                    assert(out.deep_view() =~= done.push(cq_lex(u)[0]));
                    assert(cq_lex(s@) =~= out.deep_view() + cq_lex(s@.skip(i + 1)));
                }
                i = i + 1;
            }
        } else {
            let mut j: usize = i;
            while j < n && s.get_char(j) != '['
                invariant
                    n == s@.len(),
                    i <= j <= n,
                    forall|k: int| i <= k < j ==> s@[k] != '[',
                decreases n - j,
            {
                j = j + 1;
            }
            proof {
                assert(forall|k: int| 0 <= k < j - i ==> u[k] == s@[k + i] && s@[k + i] != '[');
                if j < n {
                    assert(u[j - i] == s@[j as int]);
                }
                lemma_text_scan(u, j - i);
            }
            let tok = s.substring_char(i, j);
            proof {
                assert(s@.subrange(i as int, j as int) =~= u.take(j - i));
                assert(u.skip(j - i) =~= s@.skip(j as int));
            }
            out.push(CQSegment::Text(tok.to_owned()));
            proof {
                assert(out.deep_view() =~= done.push(cq_lex(u)[0]));
                assert(cq_lex(s@) =~= out.deep_view() + cq_lex(s@.skip(j as int)));
            }
            i = j;
        }
    }
    proof {
        assert(s@.skip(n as int) =~= Seq::<char>::empty());
        assert(cq_lex(Seq::<char>::empty()) =~= Seq::<CQSegmentView>::empty());
        assert(out.deep_view() + Seq::<CQSegmentView>::empty() =~= out.deep_view());
    }
    out
}

/// Splits a CQ-coded message into its segments and renders each to its
/// displayed text, in order.
pub fn cq_to_text(cqcode: &str) -> (r: Vec<String>)
    ensures
        r.deep_view() =~= seg_texts(cq_lex(cqcode@)),
{
    let segs = lex_cq(cqcode);
    let mut out: Vec<String> = Vec::new();
    let mut i: usize = 0;
    while i < segs.len()
        invariant
            0 <= i <= segs@.len(),
            segs.deep_view() =~= cq_lex(cqcode@),
            out.deep_view() =~= seg_texts(segs.deep_view()).take(i as int),
        decreases segs@.len() - i,
    {
        let t = segs[i].to_text();
        out.push(t);
        proof {
            assert(seg_texts(segs.deep_view()).take(i + 1) =~= seg_texts(
                segs.deep_view(),
            ).take(i as int).push(seg_text(segs.deep_view()[i as int])));
        }
        i = i + 1;
    }
    proof {
        assert(seg_texts(segs.deep_view()).take(segs@.len() as int) =~= seg_texts(
            segs.deep_view(),
        ));
    }
    out
}

} // verus!
