//! Character-level scanning utilities: white-space trimming, substring search,
//! bounded splitting, and line splitting, each verified against a
//! sequence-level specification.

use vstd::prelude::*;
use vstd::string::*;

verus! {

/// The Unicode white-space code points, as the standard `trim` treats them.
pub open spec fn is_ws_char(c: char) -> bool {
    let u = c as u32;
    u == 0x09 || u == 0x0a || u == 0x0b || u == 0x0c || u == 0x0d || u == 0x20 || u == 0x85
        || u == 0xa0 || u == 0x1680 || (0x2000 <= u && u <= 0x200a) || u == 0x2028 || u == 0x2029
        || u == 0x202f || u == 0x205f || u == 0x3000
}

fn is_ws(c: char) -> (r: bool)
    ensures
        r == is_ws_char(c),
{
    let u = c as u32;
    u == 0x09 || u == 0x0a || u == 0x0b || u == 0x0c || u == 0x0d || u == 0x20 || u == 0x85
        || u == 0xa0 || u == 0x1680 || (0x2000 <= u && u <= 0x200a) || u == 0x2028 || u == 0x2029
        || u == 0x202f || u == 0x205f || u == 0x3000
}

pub open spec fn trim_front(s: Seq<char>) -> Seq<char>
    decreases s.len(),
{
    if s.len() > 0 && is_ws_char(s[0]) {
        trim_front(s.drop_first())
    } else {
        s
    }
}

pub open spec fn trim_back(s: Seq<char>) -> Seq<char>
    decreases s.len(),
{
    if s.len() > 0 && is_ws_char(s.last()) {
        trim_back(s.drop_last())
    } else {
        s
    }
}

/// The sequence with leading and trailing white space removed.
pub open spec fn spec_trim(s: Seq<char>) -> Seq<char> {
    trim_back(trim_front(s))
}

proof fn lemma_trim_front_is_subrange(s: Seq<char>, i: int)
    requires
        0 <= i <= s.len(),
        forall|j: int| 0 <= j < i ==> is_ws_char(s[j]),
        i == s.len() || !is_ws_char(s[i]),
    ensures
        trim_front(s) == s.subrange(i, s.len() as int),
    decreases i,
{
    if i == 0 {
        assert(s.subrange(0, s.len() as int) =~= s);
    } else {
        let t = s.drop_first();
        lemma_trim_front_is_subrange(t, i - 1);
        assert(t.subrange(i - 1, t.len() as int) =~= s.subrange(i, s.len() as int));
    }
}

proof fn lemma_trim_back_is_subrange(s: Seq<char>, i: int)
    requires
        0 <= i <= s.len(),
        forall|j: int| i <= j < s.len() ==> is_ws_char(s[j]),
        i == 0 || !is_ws_char(s[i - 1]),
    ensures
        trim_back(s) == s.subrange(0, i),
    decreases s.len() - i,
{
    if i == s.len() {
        assert(s.subrange(0, i) =~= s);
    } else {
        let t = s.drop_last();
        lemma_trim_back_is_subrange(t, i);
        assert(t.subrange(0, i) =~= s.subrange(0, i));
    }
}

/// White space removed from both ends, as the standard `trim` does.
pub fn trim_str(s: &str) -> (r: String)
    ensures
        r@ == spec_trim(s@),
{
    let n = s.unicode_len();
    let mut start: usize = 0;
    while start < n && is_ws(s.get_char(start))
        invariant
            n == s@.len(),
            start <= n,
            forall|j: int| 0 <= j < start ==> is_ws_char(s@[j]),
        decreases n - start,
    {
        start = start + 1;
    }
    let mut end: usize = n;
    while end > start && is_ws(s.get_char(end - 1))
        invariant
            n == s@.len(),
            start <= end <= n,
            forall|j: int| end <= j < n ==> is_ws_char(s@[j]),
        decreases end,
    {
        end = end - 1;
    }
    proof {
        lemma_trim_front_is_subrange(s@, start as int);
        let t = s@.subrange(start as int, n as int);
        lemma_trim_back_is_subrange(t, end - start);
        assert(t.subrange(0, end - start) =~= s@.subrange(start as int, end as int));
    }
    String::from_str(s.substring_char(start, end))
}

/// `pat` occurs in `s` at position `i`.
pub open spec fn matches_at(s: Seq<char>, pat: Seq<char>, i: int) -> bool {
    &&& 0 <= i
    &&& i + pat.len() <= s.len()
    &&& forall|k: int| 0 <= k < pat.len() ==> s[i + k] == pat[k]
}

fn match_at(s: &str, pat: &str, i: usize, n: usize, m: usize) -> (r: bool)
    requires
        n == s@.len(),
        m == pat@.len(),
        i + m <= n,
    ensures
        r == matches_at(s@, pat@, i as int),
{
    let mut k: usize = 0;
    while k < m
        invariant
            n == s@.len(),
            m == pat@.len(),
            i + m <= n,
            k <= m,
            forall|q: int| 0 <= q < k ==> s@[i + q] == pat@[q],
        decreases m - k,
    {
        if s.get_char(i + k) != pat.get_char(k) {
            return false;
        }
        k = k + 1;
    }
    true
}

/// Position of the first occurrence of `pat` in `s`, if any.
pub fn find_sub(s: &str, pat: &str) -> (r: Option<usize>)
    requires
        pat@.len() >= 1,
    ensures
        match r {
            Some(i) => matches_at(s@, pat@, i as int) && forall|j: int|
                0 <= j < i ==> !matches_at(s@, pat@, j),
            None => forall|j: int| !matches_at(s@, pat@, j),
        },
{
    let n = s.unicode_len();
    let m = pat.unicode_len();
    if m > n {
        return None;
    }
    let mut i: usize = 0;
    while i <= n - m
        invariant
            n == s@.len(),
            m == pat@.len(),
            1 <= m <= n,
            i <= n - m + 1,
            forall|j: int| 0 <= j < i ==> !matches_at(s@, pat@, j),
        decreases n - m + 1 - i,
    {
        if match_at(s, pat, i, n, m) {
            return Some(i);
        }
        i = i + 1;
    }
    None
}

/// Position of the last occurrence of `pat` in `s`, if any.
pub fn rfind_sub(s: &str, pat: &str) -> (r: Option<usize>)
    requires
        pat@.len() >= 1,
    ensures
        match r {
            Some(i) => matches_at(s@, pat@, i as int) && forall|j: int|
                j > i ==> !matches_at(s@, pat@, j),
            None => forall|j: int| !matches_at(s@, pat@, j),
        },
{
    let n = s.unicode_len();
    let m = pat.unicode_len();
    if m > n {
        return None;
    }
    let mut i: usize = n - m + 1;
    while i > 0
        invariant
            n == s@.len(),
            m == pat@.len(),
            1 <= m <= n,
            i <= n - m + 1,
            forall|j: int| j >= i ==> !matches_at(s@, pat@, j),
        decreases i,
    {
        if match_at(s, pat, i - 1, n, m) {
            return Some(i - 1);
        }
        i = i - 1;
    }
    None
}

pub open spec fn first_match_from(s: Seq<char>, pat: Seq<char>, i: int) -> Option<int>
    decreases s.len() + 1 - i,
    when 0 <= i <= s.len() + 1
{
    if i + pat.len() > s.len() {
        None
    } else if matches_at(s, pat, i) {
        Some(i)
    } else {
        first_match_from(s, pat, i + 1)
    }
}

/// The first position where `pat` occurs in `s`, if any.
pub open spec fn spec_find(s: Seq<char>, pat: Seq<char>) -> Option<int> {
    first_match_from(s, pat, 0)
}

proof fn lemma_first_match_from(s: Seq<char>, pat: Seq<char>, i: int)
    requires
        0 <= i <= s.len() + 1,
    ensures
        match first_match_from(s, pat, i) {
            Some(j) => i <= j && matches_at(s, pat, j) && forall|k: int|
                i <= k < j ==> !matches_at(s, pat, k),
            None => forall|k: int| k >= i ==> !matches_at(s, pat, k),
        },
    decreases s.len() + 1 - i,
{
    if i + pat.len() > s.len() {
    } else if matches_at(s, pat, i) {
    } else {
        lemma_first_match_from(s, pat, i + 1);
    }
}

/// If `pat` occurs at `i` and nowhere earlier, the first occurrence is `i`.
pub proof fn lemma_find_unique(s: Seq<char>, pat: Seq<char>, i: int)
    requires
        matches_at(s, pat, i),
        forall|j: int| 0 <= j < i ==> !matches_at(s, pat, j),
    ensures
        spec_find(s, pat) == Some(i),
{
    lemma_first_match_from(s, pat, 0);
    match spec_find(s, pat) {
        Some(j) => {
            if j < i {
                assert(!matches_at(s, pat, j));
            }
            if j > i {
                assert(!matches_at(s, pat, i));
            }
        },
        None => {
            assert(!matches_at(s, pat, i));
        },
    }
}

/// If `pat` occurs nowhere in `s`, there is no first occurrence.
pub proof fn lemma_find_none(s: Seq<char>, pat: Seq<char>)
    requires
        forall|j: int| !matches_at(s, pat, j),
    ensures
        spec_find(s, pat) is None,
{
    lemma_first_match_from(s, pat, 0);
    match spec_find(s, pat) {
        Some(j) => {
            assert(!matches_at(s, pat, j));
        },
        None => {},
    }
}

/// Split into at most `n` pieces on `pat`, the last piece keeping the rest of
/// the input unsplit, as the standard `splitn` does.
pub open spec fn spec_splitn(s: Seq<char>, pat: Seq<char>, n: nat) -> Seq<Seq<char>>
    decreases n,
{
    if n == 0 {
        seq![]
    } else if n == 1 {
        seq![s]
    } else {
        match spec_find(s, pat) {
            Option::None => seq![s],
            Option::Some(i) => seq![s.subrange(0, i)] + spec_splitn(
                s.subrange(i + pat.len(), s.len() as int),
                pat,
                (n - 1) as nat,
            ),
        }
    }
}

/// Splits into at most `limit` pieces on `pat`; the last piece keeps the rest
/// of the input unsplit.
pub fn splitn_str(s: &str, pat: &str, limit: usize) -> (r: Vec<String>)
    requires
        pat@.len() >= 1,
        limit >= 1,
    ensures
        r.deep_view() == spec_splitn(s@, pat@, limit as nat),
{
    let m = pat.unicode_len();
    let mut parts: Vec<String> = Vec::new();
    let mut rem: &str = s;
    proof {
        assert(parts.deep_view() =~= Seq::<Seq<char>>::empty());
    }
    loop
        invariant_except_break
            m == pat@.len(),
            m >= 1,
            limit >= 1,
            parts@.len() < limit,
            spec_splitn(s@, pat@, limit as nat) == parts.deep_view() + spec_splitn(
                rem@,
                pat@,
                (limit - parts@.len()) as nat,
            ),
        ensures
            parts.deep_view() == spec_splitn(s@, pat@, limit as nat),
        decreases rem@.len(),
    {
        let ghost k: nat = (limit - parts@.len()) as nat;
        if parts.len() + 1 == limit {
            let ghost before = parts.deep_view();
            parts.push(String::from_str(rem));
            proof {
                assert(spec_splitn(rem@, pat@, k) =~= seq![rem@]);
                assert(parts.deep_view() =~= before + seq![rem@]);
            }
            break;
        }
        match find_sub(rem, pat) {
            None => {
                let ghost before = parts.deep_view();
                proof {
                    lemma_find_none(rem@, pat@);
                    assert(spec_splitn(rem@, pat@, k) =~= seq![rem@]);
                }
                parts.push(String::from_str(rem));
                proof {
                    assert(parts.deep_view() =~= before + seq![rem@]);
                }
                break;
            },
            Some(i) => {
                let rn = rem.unicode_len();
                let ghost rem0 = rem@;
                let ghost before = parts.deep_view();
                let piece = rem.substring_char(0, i);
                parts.push(String::from_str(piece));
                rem = rem.substring_char(i + m, rn);
                proof {
                    lemma_find_unique(rem0, pat@, i as int);
                    assert(spec_splitn(rem0, pat@, k) == seq![rem0.subrange(0, i as int)]
                        + spec_splitn(rem@, pat@, (k - 1) as nat));
                    assert(parts.deep_view() =~= before + seq![rem0.subrange(0, i as int)]);
                    assert(before + seq![rem0.subrange(0, i as int)] + spec_splitn(
                        rem@,
                        pat@,
                        (k - 1) as nat,
                    ) =~= before + (seq![rem0.subrange(0, i as int)] + spec_splitn(
                        rem@,
                        pat@,
                        (k - 1) as nat,
                    )));
                }
            },
        }
    }
    parts
}

/// Splitting the input into lines: terminators are line feed and carriage
/// return followed by line feed; a lone carriage return is an ordinary
/// character; a final unterminated piece is kept as a line.
pub open spec fn spec_lines(s: Seq<char>) -> Seq<Seq<char>>
    decreases s.len(),
{
    if s.len() == 0 {
        seq![]
    } else if s[0] == '\n' {
        seq![Seq::<char>::empty()] + spec_lines(s.drop_first())
    } else if s[0] == '\r' && s.len() >= 2 && s[1] == '\n' {
        seq![Seq::<char>::empty()] + spec_lines(s.subrange(2, s.len() as int))
    } else {
        let rest = spec_lines(s.drop_first());
        if rest.len() == 0 {
            seq![seq![s[0]]]
        } else {
            seq![seq![s[0]] + rest[0]] + rest.drop_first()
        }
    }
}

/// A piece with one terminating carriage return removed.
pub open spec fn strip_cr(t: Seq<char>) -> Seq<char> {
    if t.len() > 0 && t.last() == '\r' {
        t.drop_last()
    } else {
        t
    }
}

proof fn lemma_lines_no_nl(s: Seq<char>)
    requires
        forall|j: int| 0 <= j < s.len() ==> s[j] != '\n',
    ensures
        spec_lines(s) == if s.len() == 0 {
            Seq::<Seq<char>>::empty()
        } else {
            seq![s]
        },
    decreases s.len(),
{
    if s.len() > 0 {
        let t = s.drop_first();
        lemma_lines_no_nl(t);
        if s.len() == 1 {
            assert(seq![s[0]] =~= s);
        } else {
            assert(seq![s[0]] + t =~= s);
        }
    }
}

proof fn lemma_lines_split_first_nl(s: Seq<char>, k: int)
    requires
        0 <= k < s.len(),
        s[k] == '\n',
        forall|j: int| 0 <= j < k ==> s[j] != '\n',
    ensures
        spec_lines(s) == seq![strip_cr(s.subrange(0, k))] + spec_lines(
            s.subrange(k + 1, s.len() as int),
        ),
    decreases k,
{
    if k == 0 {
        assert(s.subrange(0, 0) =~= Seq::<char>::empty());
        assert(s.drop_first() =~= s.subrange(1, s.len() as int));
    } else if k == 1 && s[0] == '\r' {
        assert(strip_cr(s.subrange(0, 1)) =~= Seq::<char>::empty());
        assert(s.subrange(2, s.len() as int) =~= s.subrange(k + 1, s.len() as int));
    } else {
        let t = s.drop_first();
        lemma_lines_split_first_nl(t, k - 1);
        let head = t.subrange(0, k - 1);
        let tail = t.subrange(k, t.len() as int);
        assert(spec_lines(t) == seq![strip_cr(head)] + spec_lines(tail));
        assert(spec_lines(t).len() > 0);
        assert(spec_lines(t)[0] == strip_cr(head));
        assert(spec_lines(t).drop_first() =~= spec_lines(tail));
        assert(tail =~= s.subrange(k + 1, s.len() as int));
        let full_head = s.subrange(0, k);
        assert(head =~= full_head.drop_first());
        assert(seq![s[0]] + strip_cr(head) =~= strip_cr(full_head));
    }
}

/// There are never more lines than characters.
pub proof fn lemma_lines_count_le(s: Seq<char>)
    ensures
        spec_lines(s).len() <= s.len(),
    decreases s.len(),
{
    if s.len() == 0 {
    } else if s[0] == '\n' {
        lemma_lines_count_le(s.drop_first());
    } else if s[0] == '\r' && s.len() >= 2 && s[1] == '\n' {
        lemma_lines_count_le(s.subrange(2, s.len() as int));
    } else {
        lemma_lines_count_le(s.drop_first());
    }
}

/// Splits into lines as the standard `lines` does.
pub fn lines_of(s: &str) -> (r: Vec<String>)
    ensures
        r.deep_view() == spec_lines(s@),
{
    let mut out: Vec<String> = Vec::new();
    let mut rem: &str = s;
    proof {
        reveal_strlit("\n");
        assert(out.deep_view() =~= Seq::<Seq<char>>::empty());
    }
    loop
        invariant_except_break
            spec_lines(s@) == out.deep_view() + spec_lines(rem@),
        ensures
            out.deep_view() == spec_lines(s@),
        decreases rem@.len(),
    {
        proof {
            reveal_strlit("\n");
        }
        let rn = rem.unicode_len();
        match find_sub(rem, "\n") {
            None => {
                proof {
                    assert(forall|j: int| 0 <= j < rem@.len() ==> rem@[j] != '\n') by {
                        assert forall|j: int| 0 <= j < rem@.len() implies rem@[j] != '\n' by {
                            if rem@[j] == '\n' {
                                assert(matches_at(rem@, "\n"@, j));
                            }
                        }
                    }
                    lemma_lines_no_nl(rem@);
                }
                if rn > 0 {
                    let ghost before = out.deep_view();
                    out.push(String::from_str(rem));
                    proof {
                        assert(out.deep_view() =~= before + seq![rem@]);
                    }
                }
                break;
            },
            Some(k) => {
                let ghost rem0 = rem@;
                let ghost before = out.deep_view();
                proof {
                    reveal_strlit("\n");
                    assert(matches_at(rem0, "\n"@, k as int));
                    assert(rem0[k as int + 0] == "\n"@[0]);
                    assert(rem0[k as int] == '\n');
                    assert forall|j: int| 0 <= j < k implies rem0[j] != '\n' by {
                        if rem0[j] == '\n' {
                            assert(matches_at(rem0, "\n"@, j));
                        }
                    }
                    lemma_lines_split_first_nl(rem0, k as int);
                }
                let end = if k > 0 && rem.get_char(k - 1) == '\r' {
                    k - 1
                } else {
                    k
                };
                out.push(String::from_str(rem.substring_char(0, end)));
                rem = rem.substring_char(k + 1, rn);
                proof {
                    assert(rem0.subrange(0, end as int) =~= strip_cr(rem0.subrange(0, k as int)));
                    assert(out.deep_view() =~= before + seq![strip_cr(rem0.subrange(0, k as int))]);
                }
            },
        }
    }
    out
}

} // verus!
