//! Best-effort recovery of a JSON fragment from loosely structured model
//! output.
//!
//! The strategies are tried in order, first match wins: text that already
//! starts with the expected opening delimiter, a fenced block tagged `json`,
//! a generic fenced block (arrays only), the widest delimiter-to-delimiter
//! span, and finally the trimmed text unchanged. Extraction always produces
//! a result; failures surface only later, at the decode step.

use vstd::prelude::*;

use crate::chars::chars_of;

verus! {

/// The whitespace characters the extractor trims.
pub open spec fn is_ws(c: char) -> bool {
    c == ' ' || c == '\t' || c == '\n' || c == '\r' || c == '\u{000B}' || c == '\u{000C}'
}

fn is_ws_char(c: char) -> (b: bool)
    ensures
        b == is_ws(c),
{
    c == ' ' || c == '\t' || c == '\n' || c == '\r' || c == '\u{000B}' || c == '\u{000C}'
}

/// The sequence with leading whitespace removed.
pub open spec fn spec_trim_start(s: Seq<char>) -> Seq<char>
    decreases s.len(),
{
    if s.len() > 0 && is_ws(s.first()) {
        spec_trim_start(s.drop_first())
    } else {
        s
    }
}

/// The sequence with trailing whitespace removed.
pub open spec fn spec_trim_end(s: Seq<char>) -> Seq<char>
    decreases s.len(),
{
    if s.len() > 0 && is_ws(s.last()) {
        spec_trim_end(s.drop_last())
    } else {
        s
    }
}

/// The sequence with whitespace removed from both ends.
pub open spec fn spec_trim(s: Seq<char>) -> Seq<char> {
    spec_trim_end(spec_trim_start(s))
}

proof fn lemma_trim_start_idx(s: Seq<char>, lo: int)
    requires
        0 <= lo <= s.len(),
        forall|k: int| 0 <= k < lo ==> is_ws(s[k]),
        lo == s.len() || !is_ws(s[lo]),
    ensures
        spec_trim_start(s) == s.subrange(lo, s.len() as int),
    decreases s.len(),
{
    if lo == 0 {
        assert(spec_trim_start(s) =~= s.subrange(0, s.len() as int));
    } else {
        lemma_trim_start_idx(s.drop_first(), lo - 1);
        assert(s.drop_first().subrange(lo - 1, s.drop_first().len() as int) =~= s.subrange(
            lo,
            s.len() as int,
        ));
    }
}

proof fn lemma_trim_end_idx(s: Seq<char>, hi: int)
    requires
        0 <= hi <= s.len(),
        forall|k: int| hi <= k < s.len() ==> is_ws(s[k]),
        hi == 0 || !is_ws(s[hi - 1]),
    ensures
        spec_trim_end(s) == s.subrange(0, hi),
    decreases s.len(),
{
    if hi == s.len() {
        assert(spec_trim_end(s) =~= s.subrange(0, hi));
    } else {
        lemma_trim_end_idx(s.drop_last(), hi);
        assert(s.drop_last().subrange(0, hi) =~= s.subrange(0, hi));
    }
}

/// Locates the trimmed portion of `s[from..to]`: returns bounds `(lo, hi)`
/// such that `s[lo..hi]` is that range with surrounding whitespace removed.
pub(crate) fn trim_bounds(s: &Vec<char>, from: usize, to: usize) -> (r: (usize, usize))
    requires
        from <= to <= s@.len(),
    ensures
        from <= r.0 <= r.1 <= to,
        s@.subrange(r.0 as int, r.1 as int) == spec_trim(s@.subrange(from as int, to as int)),
{
    let mut lo = from;
    while lo < to && is_ws_char(s[lo])
        invariant
            from <= lo <= to <= s@.len(),
            forall|k: int| from <= k < lo ==> is_ws(s@[k]),
        decreases to - lo,
    {
        lo = lo + 1;
    }
    let mut hi = to;
    while hi > lo && is_ws_char(s[hi - 1])
        invariant
            lo <= hi <= to <= s@.len(),
            forall|k: int| hi <= k < to ==> is_ws(s@[k]),
        decreases hi,
    {
        hi = hi - 1;
    }
    proof {
        let t0 = s@.subrange(from as int, to as int);
        lemma_trim_start_idx(t0, lo - from);
        assert(t0.subrange(lo - from, t0.len() as int) =~= s@.subrange(lo as int, to as int));
        let t1 = s@.subrange(lo as int, to as int);
        lemma_trim_end_idx(t1, hi - lo);
        assert(t1.subrange(0, hi - lo) =~= s@.subrange(lo as int, hi as int));
    }
    (lo, hi)
}

/// Whether `pat` occurs in `s` starting at position `i`.
pub open spec fn spec_match_at(s: Seq<char>, pat: Seq<char>, i: int) -> bool {
    0 <= i && i + pat.len() <= s.len() && s.subrange(i, i + pat.len()) == pat
}

fn match_at(s: &Vec<char>, pat: &Vec<char>, i: usize) -> (b: bool)
    requires
        i <= s@.len(),
    ensures
        b == spec_match_at(s@, pat@, i as int),
{
    if s.len() - i < pat.len() {
        return false;
    }
    let n = s.len();
    let mut j: usize = 0;
    while j < pat.len()
        invariant
            n == s@.len(),
            i + pat@.len() <= n,
            j <= pat@.len(),
            forall|k: int| 0 <= k < j ==> s@[i + k] == pat@[k],
        decreases pat@.len() - j,
    {
        if s[i + j] != pat[j] {
            proof {
                assert(s@.subrange(i as int, i + pat@.len())[j as int] != pat@[j as int]);
            }
            return false;
        }
        j = j + 1;
    }
    proof {
        assert(s@.subrange(i as int, i + pat@.len()) =~= pat@);
    }
    true
}

/// The first position at or after `from` where `pat` occurs in `s`.
pub open spec fn spec_find(s: Seq<char>, pat: Seq<char>, from: int) -> Option<int>
    decreases s.len() - from,
{
    if pat.len() == 0 {
        Some(from)
    } else if from + pat.len() <= s.len() {
        if spec_match_at(s, pat, from) {
            Some(from)
        } else {
            spec_find(s, pat, from + 1)
        }
    } else {
        None
    }
}

fn find_sub(s: &Vec<char>, pat: &Vec<char>, from: usize) -> (r: Option<usize>)
    requires
        from <= s@.len(),
    ensures
        match r {
            Some(i) => from <= i && spec_find(s@, pat@, from as int) == Some(i as int),
            None => spec_find(s@, pat@, from as int) is None,
        },
{
    if pat.len() == 0 {
        return Some(from);
    }
    let n = s.len();
    let mut i = from;
    while n - i >= pat.len()
        invariant
            n == s@.len(),
            1 <= pat@.len(),
            from <= i <= n,
            spec_find(s@, pat@, from as int) == spec_find(s@, pat@, i as int),
        decreases n - i,
    {
        if match_at(s, pat, i) {
            return Some(i);
        }
        i = i + 1;
    }
    None
}

/// The last position in `[from, i]` where `pat` occurs in `s`.
pub open spec fn spec_rfind_before(s: Seq<char>, pat: Seq<char>, from: int, i: int) -> Option<
    int,
>
    decreases i - from + 1,
{
    if i < from {
        None
    } else if spec_match_at(s, pat, i) {
        Some(i)
    } else {
        spec_rfind_before(s, pat, from, i - 1)
    }
}

/// The last position at or after `from` where `pat` occurs in `s`.
pub open spec fn spec_rfind_from(s: Seq<char>, pat: Seq<char>, from: int) -> Option<int> {
    spec_rfind_before(s, pat, from, s.len() - pat.len())
}

fn rfind_from(s: &Vec<char>, pat: &Vec<char>, from: usize) -> (r: Option<usize>)
    ensures
        match r {
            Some(i) => from <= i && spec_rfind_from(s@, pat@, from as int) == Some(i as int),
            None => spec_rfind_from(s@, pat@, from as int) is None,
        },
{
    if pat.len() > s.len() {
        return None;
    }
    let top = s.len() - pat.len();
    if top < from {
        return None;
    }
    let mut i = top;
    loop
        invariant
            from <= i <= top == s@.len() - pat@.len(),
            spec_rfind_from(s@, pat@, from as int) == spec_rfind_before(
                s@,
                pat@,
                from as int,
                i as int,
            ),
        decreases i,
    {
        if match_at(s, pat, i) {
            return Some(i);
        }
        if i == from {
            proof {
                assert(spec_rfind_before(s@, pat@, from as int, i - 1) is None);
            }
            return None;
        }
        i = i - 1;
    }
}

proof fn lemma_find_is_match(s: Seq<char>, pat: Seq<char>, from: int)
    requires
        pat.len() > 0,
        spec_find(s, pat, from) is Some,
    ensures
        spec_match_at(s, pat, spec_find(s, pat, from)->Some_0),
        spec_find(s, pat, from)->Some_0 >= from,
    decreases s.len() - from,
{
    if from + pat.len() <= s.len() && !spec_match_at(s, pat, from) {
        lemma_find_is_match(s, pat, from + 1);
    }
}

proof fn lemma_rfind_before_is_match(s: Seq<char>, pat: Seq<char>, from: int, i: int)
    requires
        spec_rfind_before(s, pat, from, i) is Some,
    ensures
        spec_match_at(s, pat, spec_rfind_before(s, pat, from, i)->Some_0),
    decreases i - from + 1,
{
    if i >= from && !spec_match_at(s, pat, i) {
        lemma_rfind_before_is_match(s, pat, from, i - 1);
    }
}

proof fn lemma_rfind_is_match(s: Seq<char>, pat: Seq<char>, from: int)
    requires
        spec_rfind_from(s, pat, from) is Some,
    ensures
        spec_match_at(s, pat, spec_rfind_from(s, pat, from)->Some_0),
{
    lemma_rfind_before_is_match(s, pat, from, s.len() - pat.len());
}

fn singleton(c: char) -> (r: Vec<char>)
    ensures
        r@ == seq![c],
{
    let mut r: Vec<char> = Vec::new();
    r.push(c);
    proof {
        assert(r@ =~= seq![c]);
    }
    r
}

/// Copies `s[from..to]` into a fresh vector.
fn copy_range(s: &Vec<char>, from: usize, to: usize) -> (r: Vec<char>)
    requires
        from <= to <= s@.len(),
    ensures
        r@ == s@.subrange(from as int, to as int),
{
    let mut r: Vec<char> = Vec::new();
    let mut i = from;
    while i < to
        invariant
            from <= i <= to <= s@.len(),
            r@ == s@.subrange(from as int, i as int),
        decreases to - i,
    {
        r.push(s[i]);
        i = i + 1;
        proof {
            assert(r@ =~= s@.subrange(from as int, i as int));
        }
    }
    r
}

/// The interior of a fenced block tagged `json`, when one is present with a
/// nonempty interior: from just after the tag to the first closing fence
/// after it (or, failing that, the last fence at or after the tag),
/// re-trimmed.
pub open spec fn spec_fenced_json(t: Seq<char>) -> Option<Seq<char>> {
    match spec_find(t, "```json"@, 0) {
        Option::None => Option::None,
        Option::Some(start) => {
            let end = match spec_find(t, "```\n"@, start) {
                Option::Some(e) => Option::Some(e),
                Option::None => spec_rfind_from(t, "```"@, start),
            };
            match end {
                Option::None => Option::None,
                Option::Some(e) => if start + 7 < e {
                    Option::Some(spec_trim(t.subrange(start + 7, e)))
                } else {
                    Option::None
                },
            }
        },
    }
}

/// The interior of the first generic fenced block, when one is present,
/// with an optional language-tag line skipped and the rest re-trimmed.
pub open spec fn spec_generic_block(t: Seq<char>) -> Option<Seq<char>> {
    match spec_find(t, "```"@, 0) {
        Option::None => Option::None,
        Option::Some(start) => match spec_find(t, "```"@, start + 3) {
            Option::None => Option::None,
            Option::Some(e) => {
                let block = t.subrange(start + 3, e);
                match spec_find(block, seq!['\n'], 0) {
                    Option::Some(nl) => Option::Some(
                        spec_trim(block.subrange(nl + 1, block.len() as int)),
                    ),
                    Option::None => Option::Some(spec_trim(block)),
                }
            },
        },
    }
}

/// The span from the first opening delimiter to the last closing delimiter,
/// when both occur in that order.
pub open spec fn spec_bracket_span(t: Seq<char>, open: char, close: char) -> Option<Seq<char>> {
    match spec_find(t, seq![open], 0) {
        Option::None => Option::None,
        Option::Some(a) => match spec_rfind_from(t, seq![close], 0) {
            Option::None => Option::None,
            Option::Some(b) => if a < b {
                Option::Some(t.subrange(a, b + 1))
            } else {
                Option::None
            },
        },
    }
}

/// What extraction recovers from raw model output, for the given pair of
/// delimiters. The strategies are tried in order; the last one is identity
/// on the trimmed text, so extraction always produces a result.
pub open spec fn spec_extract_payload(
    s: Seq<char>,
    open: char,
    close: char,
    generic: bool,
) -> Seq<char> {
    let t = spec_trim(s);
    if t.len() > 0 && t.first() == open {
        t
    } else if spec_fenced_json(t) is Some {
        spec_fenced_json(t)->Some_0
    } else if generic && spec_generic_block(t) is Some {
        spec_generic_block(t)->Some_0
    } else if spec_bracket_span(t, open, close) is Some {
        spec_bracket_span(t, open, close)->Some_0
    } else {
        t
    }
}

fn fenced_json_bounds(t: &Vec<char>) -> (r: Option<(usize, usize)>)
    ensures
        match r {
            Some(ab) => ab.0 <= ab.1 <= t@.len() && spec_fenced_json(t@) == Some(
                t@.subrange(ab.0 as int, ab.1 as int),
            ),
            None => spec_fenced_json(t@) is None,
        },
{
    let fj = chars_of("```json");
    if let Some(start) = find_sub(t, &fj, 0) {
        proof {
            reveal_strlit("```json");
            lemma_find_is_match(t@, "```json"@, 0);
            assert(start + 7 <= t@.len());
        }
        let fnl = chars_of("```\n");
        let f3 = chars_of("```");
        let endo = match find_sub(t, &fnl, start) {
            Some(e) => {
                proof {
                    reveal_strlit("```\n");
                    lemma_find_is_match(t@, "```\n"@, start as int);
                    assert(e + 3 <= t@.len());
                }
                Some(e)
            },
            None => {
                match rfind_from(t, &f3, start) {
                    Some(e) => {
                        proof {
                            reveal_strlit("```");
                            lemma_rfind_is_match(t@, "```"@, start as int);
                            assert(e + 3 <= t@.len());
                        }
                        Some(e)
                    },
                    None => None,
                }
            },
        };
        if let Some(e) = endo {
            assert(e + 3 <= t@.len());
            if e > start && e - start > 7 {
                let ab = trim_bounds(t, start + 7, e);
                return Some(ab);
            }
        }
        None
    } else {
        None
    }
}

fn generic_block_bounds(t: &Vec<char>) -> (r: Option<(usize, usize)>)
    ensures
        match r {
            Some(ab) => ab.0 <= ab.1 <= t@.len() && spec_generic_block(t@) == Some(
                t@.subrange(ab.0 as int, ab.1 as int),
            ),
            None => spec_generic_block(t@) is None,
        },
{
    let n = t.len();
    let f3 = chars_of("```");
    if let Some(s3) = find_sub(t, &f3, 0) {
        proof {
            reveal_strlit("```");
            lemma_find_is_match(t@, "```"@, 0);
            assert(s3 + 3 <= n);
        }
        if let Some(e3) = find_sub(t, &f3, s3 + 3) {
            proof {
                lemma_find_is_match(t@, "```"@, s3 + 3);
                assert(s3 + 3 <= e3 <= t@.len());
            }
            let blk = copy_range(t, s3 + 3, e3);
            let nlv = chars_of("\n");
            proof {
                reveal_strlit("\n");
                assert("\n"@ =~= seq!['\n']);
            }
            let (a, b) = match find_sub(&blk, &nlv, 0) {
                Some(nl) => {
                    proof {
                        lemma_find_is_match(blk@, "\n"@, 0);
                        assert(nl + 1 <= blk@.len());
                    }
                    let ab = trim_bounds(&blk, nl + 1, blk.len());
                    proof {
                        assert(spec_generic_block(t@) == Some(
                            spec_trim(blk@.subrange(nl + 1, blk@.len() as int)),
                        ));
                    }
                    ab
                },
                None => {
                    let ab = trim_bounds(&blk, 0, blk.len());
                    proof {
                        assert(blk@.subrange(0, blk@.len() as int) =~= blk@);
                        assert(spec_generic_block(t@) == Some(spec_trim(blk@)));
                    }
                    ab
                },
            };
            proof {
                assert(blk@.subrange(a as int, b as int) =~= t@.subrange(
                    s3 + 3 + a,
                    s3 + 3 + b,
                ));
            }
            return Some((s3 + 3 + a, s3 + 3 + b));
        }
        None
    } else {
        None
    }
}

fn bracket_span_bounds(t: &Vec<char>, open: char, close: char) -> (r: Option<(usize, usize)>)
    ensures
        match r {
            Some(ab) => ab.0 <= ab.1 <= t@.len() && spec_bracket_span(t@, open, close) == Some(
                t@.subrange(ab.0 as int, ab.1 as int),
            ),
            None => spec_bracket_span(t@, open, close) is None,
        },
{
    let n = t.len();
    let ov = singleton(open);
    let cv = singleton(close);
    if let Some(a4) = find_sub(t, &ov, 0) {
        if let Some(b4) = rfind_from(t, &cv, 0) {
            proof {
                lemma_rfind_is_match(t@, seq![close], 0);
                assert(b4 + 1 <= n);
            }
            if a4 < b4 {
                return Some((a4, b4 + 1));
            }
        }
        None
    } else {
        None
    }
}

fn extract_payload(content: &str, open: char, close: char, generic: bool) -> (r: String)
    ensures
        r@ == spec_extract_payload(content@, open, close, generic),
{
    let v = chars_of(content);
    let n = v.len();
    let (lo, hi) = trim_bounds(&v, 0, n);
    proof {
        assert(v@.subrange(0, n as int) =~= v@);
    }
    let t = copy_range(&v, lo, hi);
    if t.len() > 0 && t[0] == open {
        return content.substring_char(lo, hi).to_owned();
    }
    if let Some((a, b)) = fenced_json_bounds(&t) {
        proof {
            assert(t@.subrange(a as int, b as int) =~= content@.subrange(lo + a, lo + b));
        }
        return content.substring_char(lo + a, lo + b).to_owned();
    }
    if generic {
        if let Some((a, b)) = generic_block_bounds(&t) {
            proof {
                assert(t@.subrange(a as int, b as int) =~= content@.subrange(lo + a, lo + b));
            }
            return content.substring_char(lo + a, lo + b).to_owned();
        }
    }
    if let Some((a, b)) = bracket_span_bounds(&t, open, close) {
        proof {
            assert(t@.subrange(a as int, b as int) =~= content@.subrange(lo + a, lo + b));
        }
        return content.substring_char(lo + a, lo + b).to_owned();
    }
    content.substring_char(lo, hi).to_owned()
}

/// What `extract_json_array` recovers from raw model output.
pub open spec fn spec_extract_json_array(s: Seq<char>) -> Seq<char> {
    spec_extract_payload(s, '[', ']', true)
}

/// Recovers the JSON array payload from raw model output: the text itself
/// when it already starts with `[`, else the interior of a fenced block,
/// else the widest `[`..`]` span, else the trimmed text unchanged.
pub fn extract_json_array(content: &str) -> (r: String)
    ensures
        r@ == spec_extract_json_array(content@),
{
    extract_payload(content, '[', ']', true)
}

/// What `extract_json_object` recovers from raw model output.
pub open spec fn spec_extract_json_object(s: Seq<char>) -> Seq<char> {
    spec_extract_payload(s, '{', '}', false)
}

/// Recovers the JSON object payload from raw model output: the text itself
/// when it already starts with `{`, else the interior of a fenced block
/// tagged `json`, else the widest `{`..`}` span, else the trimmed text
/// unchanged.
pub fn extract_json_object(content: &str) -> (r: String)
    ensures
        r@ == spec_extract_json_object(content@),
{
    extract_payload(content, '{', '}', false)
}

} // verus!
