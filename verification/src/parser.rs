//! The response-line parser: splits each line of a raw post dump into named
//! fields, disambiguates the combined date-and-identity segment, extracts the
//! per-post identity token, and tolerates malformed lines.

use vstd::prelude::*;
use vstd::string::*;
use crate::scan::{
    find_sub, lines_of, matches_at, rfind_sub, spec_find, spec_lines, spec_splitn, spec_trim,
    splitn_str, trim_str,
};

verus! {

/// The field delimiter of the post-dump format.
pub open spec fn delim() -> Seq<char> {
    seq!['<', '>']
}

/// The marker that separates the date from the identity info: a space then
/// `ID:`.
pub open spec fn space_id_marker() -> Seq<char> {
    seq![' ', 'I', 'D', ':']
}

/// The identity-token marker inside the identity-info field.
pub open spec fn id_marker() -> Seq<char> {
    seq!['I', 'D', ':']
}

pub open spec fn last_match_before(s: Seq<char>, pat: Seq<char>, i: int) -> Option<int>
    decreases i,
    when i >= 0
{
    if i <= 0 {
        None
    } else if matches_at(s, pat, i - 1) {
        Some(i - 1)
    } else {
        last_match_before(s, pat, i - 1)
    }
}

/// The last position where `pat` occurs in `s`, if any.
pub open spec fn spec_rfind(s: Seq<char>, pat: Seq<char>) -> Option<int> {
    last_match_before(s, pat, s.len() as int)
}

proof fn lemma_last_match_before(s: Seq<char>, pat: Seq<char>, i: int)
    requires
        i >= 0,
    ensures
        match last_match_before(s, pat, i) {
            Some(j) => 0 <= j < i && matches_at(s, pat, j) && forall|k: int|
                j < k < i ==> !matches_at(s, pat, k),
            None => forall|k: int| 0 <= k < i ==> !matches_at(s, pat, k),
        },
    decreases i,
{
    if i <= 0 {
    } else if matches_at(s, pat, i - 1) {
    } else {
        lemma_last_match_before(s, pat, i - 1);
    }
}

/// If `pat` occurs at `i` and nowhere later, the last occurrence is `i`.
pub proof fn lemma_rfind_unique(s: Seq<char>, pat: Seq<char>, i: int)
    requires
        pat.len() >= 1,
        matches_at(s, pat, i),
        forall|j: int| j > i ==> !matches_at(s, pat, j),
    ensures
        spec_rfind(s, pat) == Some(i),
{
    lemma_last_match_before(s, pat, s.len() as int);
    match spec_rfind(s, pat) {
        Some(j) => {
            if j < i {
                assert(!matches_at(s, pat, i));
            }
            if j > i {
                assert(!matches_at(s, pat, j));
            }
        },
        None => {
            assert(!matches_at(s, pat, i));
        },
    }
}

/// If `pat` occurs nowhere in `s`, there is no last occurrence.
pub proof fn lemma_rfind_none(s: Seq<char>, pat: Seq<char>)
    requires
        forall|j: int| !matches_at(s, pat, j),
    ensures
        spec_rfind(s, pat) is None,
{
    lemma_last_match_before(s, pat, s.len() as int);
    match spec_rfind(s, pat) {
        Some(j) => {
            assert(!matches_at(s, pat, j));
        },
        None => {},
    }
}

/// The characters an identity token is made of: ASCII letters and digits,
/// `-`, and `_`.
pub open spec fn is_token_char(c: char) -> bool {
    let u = c as u32;
    (0x30 <= u && u <= 0x39) || (0x41 <= u && u <= 0x5a) || (0x61 <= u && u <= 0x7a) || u == 0x2d
        || u == 0x5f
}

fn token_char(c: char) -> (r: bool)
    ensures
        r == is_token_char(c),
{
    let u = c as u32;
    (0x30 <= u && u <= 0x39) || (0x41 <= u && u <= 0x5a) || (0x61 <= u && u <= 0x7a) || u == 0x2d
        || u == 0x5f
}

/// The length of the maximal run of token characters starting at `i`.
pub open spec fn token_run_len(s: Seq<char>, i: int) -> int
    decreases s.len() - i,
    when 0 <= i <= s.len()
{
    if i < s.len() && is_token_char(s[i]) {
        1 + token_run_len(s, i + 1)
    } else {
        0
    }
}

proof fn lemma_token_run(s: Seq<char>, start: int, k: int)
    requires
        0 <= start <= k <= s.len(),
        forall|j: int| start <= j < k ==> is_token_char(s[j]),
        k == s.len() || !is_token_char(s[k]),
    ensures
        token_run_len(s, start) == k - start,
    decreases k - start,
{
    if start < k {
        lemma_token_run(s, start + 1, k);
    }
}

/// The identity token inside an identity-info string: the maximal nonempty
/// run of token characters right after the first `ID:`, if both exist.
pub open spec fn spec_extract_token(info: Seq<char>) -> Option<Seq<char>> {
    match spec_find(info, id_marker()) {
        Option::None => Option::None,
        Option::Some(j) => {
            let start = j + 3;
            let len = token_run_len(info, start);
            if len == 0 {
                Option::None
            } else {
                Option::Some(info.subrange(start, start + len))
            }
        },
    }
}

/// Extracts the identity token from a display identity-info string, such as
/// the token after the `ID:` marker; `None` when there is no marker or no
/// token character follows it.
pub fn parse_actual_id_from_info_str(user_id_info_str: &str) -> (r: Option<String>)
    ensures
        r.deep_view() == spec_extract_token(user_id_info_str@),
{
    proof {
        reveal_strlit("ID:");
        assert("ID:"@ =~= id_marker());
    }
    let n = user_id_info_str.unicode_len();
    match find_sub(user_id_info_str, "ID:") {
        None => {
            proof {
                crate::scan::lemma_find_none(user_id_info_str@, id_marker());
            }
            None
        },
        Some(j) => {
            proof {
                crate::scan::lemma_find_unique(user_id_info_str@, id_marker(), j as int);
            }
            let start = j + 3;
            let mut k = start;
            while k < n && token_char(user_id_info_str.get_char(k))
                invariant
                    n == user_id_info_str@.len(),
                    start <= k <= n,
                    forall|q: int| start <= q < k ==> is_token_char(user_id_info_str@[q]),
                decreases n - k,
            {
                k = k + 1;
            }
            proof {
                lemma_token_run(user_id_info_str@, start as int, k as int);
            }
            if k == start {
                None
            } else {
                Some(String::from_str(user_id_info_str.substring_char(start, k)))
            }
        },
    }
}

/// The date half of the combined date-and-identity segment: everything before
/// the last ` ID:` marker, trimmed; the whole segment, trimmed, when there is
/// no marker.
pub open spec fn spec_date_of(seg: Seq<char>) -> Seq<char> {
    match spec_rfind(seg, space_id_marker()) {
        Option::Some(p) => spec_trim(seg.subrange(0, p)),
        Option::None => spec_trim(seg),
    }
}

/// The identity half of the combined date-and-identity segment: everything
/// from the last ` ID:` marker on, trimmed; empty when there is no marker.
pub open spec fn spec_info_of(seg: Seq<char>) -> Seq<char> {
    match spec_rfind(seg, space_id_marker()) {
        Option::Some(p) => spec_trim(seg.subrange(p, seg.len() as int)),
        Option::None => Seq::empty(),
    }
}

/// The mathematical content of one parsed post line.
pub struct PostModel {
    pub author: Seq<char>,
    pub mail: Seq<char>,
    pub date: Seq<char>,
    pub user_id_info: Seq<char>,
    pub parsed_user_id: Option<Seq<char>>,
    pub body: Seq<char>,
}

/// One parsed post line, in file order.
pub struct ParsedPostRecord {
    pub author: String,
    pub mail: String,
    pub date: String,
    pub user_id_info: String,
    pub parsed_user_id: Option<String>,
    pub body: String,
}

impl View for ParsedPostRecord {
    type V = PostModel;

    open spec fn view(&self) -> PostModel {
        PostModel {
            author: self.author@,
            mail: self.mail@,
            date: self.date@,
            user_id_info: self.user_id_info@,
            parsed_user_id: self.parsed_user_id.deep_view(),
            body: self.body@,
        }
    }
}

/// A line that is not a post: empty or white space only.
pub open spec fn line_is_blank(line: Seq<char>) -> bool {
    spec_trim(line).len() == 0
}

/// The delimiter split of a line, at most five pieces.
pub open spec fn line_segments(line: Seq<char>) -> Seq<Seq<char>> {
    spec_splitn(line, delim(), 5)
}

/// What one line of the dump parses to: `None` for blank or malformed lines.
pub open spec fn spec_parse_line(line: Seq<char>) -> Option<PostModel> {
    if line_is_blank(line) || line_segments(line).len() < 4 {
        Option::None
    } else {
        let segs = line_segments(line);
        Option::Some(
            PostModel {
                author: segs[0],
                mail: segs[1],
                date: spec_date_of(segs[2]),
                user_id_info: spec_info_of(segs[2]),
                parsed_user_id: spec_extract_token(spec_info_of(segs[2])),
                body: segs[3],
            },
        )
    }
}

/// A non-blank line with fewer than four segments: skipped with a diagnostic.
pub open spec fn spec_is_malformed(line: Seq<char>) -> bool {
    !line_is_blank(line) && line_segments(line).len() < 4
}

/// The records of a line sequence, in line order, blank and malformed lines
/// skipped.
pub open spec fn spec_parse_records(lines: Seq<Seq<char>>) -> Seq<PostModel>
    decreases lines.len(),
{
    if lines.len() == 0 {
        seq![]
    } else {
        spec_parse_records(lines.drop_last()) + match spec_parse_line(lines.last()) {
            Option::Some(m) => seq![m],
            Option::None => seq![],
        }
    }
}

/// There are never more records than lines.
pub proof fn lemma_records_count_le(lines: Seq<Seq<char>>)
    ensures
        spec_parse_records(lines).len() <= lines.len(),
    decreases lines.len(),
{
    if lines.len() > 0 {
        lemma_records_count_le(lines.drop_last());
    }
}

/// How many lines of the sequence are malformed.
pub open spec fn spec_malformed_count(lines: Seq<Seq<char>>) -> nat
    decreases lines.len(),
{
    if lines.len() == 0 {
        0
    } else {
        spec_malformed_count(lines.drop_last()) + if spec_is_malformed(lines.last()) {
            1nat
        } else {
            0nat
        }
    }
}

/// How one line was handled.
pub enum LineOutcome {
    Post(ParsedPostRecord),
    Blank,
    Malformed,
}

/// Parses one line of the dump: a blank line is no post, a line with fewer
/// than four delimiter-separated segments is malformed, and any other line
/// yields a record with the disambiguated date, identity info, and token.
pub fn parse_line(line: &str) -> (r: LineOutcome)
    ensures
        match r {
            LineOutcome::Post(rec) => spec_parse_line(line@) == Some(rec@),
            LineOutcome::Blank => line_is_blank(line@),
            LineOutcome::Malformed => spec_is_malformed(line@),
        },
{
    proof {
        reveal_strlit("<>");
        reveal_strlit(" ID:");
        assert("<>"@ =~= delim());
        assert(" ID:"@ =~= space_id_marker());
    }
    let t = trim_str(line);
    if t.as_str().unicode_len() == 0 {
        return LineOutcome::Blank;
    }
    let parts = splitn_str(line, "<>", 5);
    if parts.len() < 4 {
        proof {
            assert(line_segments(line@).len() == parts.deep_view().len());
        }
        return LineOutcome::Malformed;
    }
    proof {
        assert(parts.deep_view()[0] == parts@[0]@);
        assert(parts.deep_view()[1] == parts@[1]@);
        assert(parts.deep_view()[2] == parts@[2]@);
        assert(parts.deep_view()[3] == parts@[3]@);
    }
    let seg2 = &parts[2];
    let n2 = seg2.as_str().unicode_len();
    let date: String;
    let info: String;
    match rfind_sub(seg2.as_str(), " ID:") {
        Some(p) => {
            proof {
                lemma_rfind_unique(seg2@, space_id_marker(), p as int);
            }
            date = trim_str(seg2.as_str().substring_char(0, p));
            info = trim_str(seg2.as_str().substring_char(p, n2));
        },
        None => {
            proof {
                lemma_rfind_none(seg2@, space_id_marker());
            }
            date = trim_str(seg2.as_str());
            info = String::new();
        },
    }
    let token = parse_actual_id_from_info_str(info.as_str());
    LineOutcome::Post(
        ParsedPostRecord {
            author: parts[0].clone(),
            mail: parts[1].clone(),
            date,
            user_id_info: info,
            parsed_user_id: token,
            body: parts[3].clone(),
        },
    )
}

/// The models of a record sequence.
pub open spec fn models_of(rs: Seq<ParsedPostRecord>) -> Seq<PostModel> {
    rs.map_values(|r: ParsedPostRecord| r@)
}

/// Parses a whole post dump: the records of its non-blank, well-formed lines
/// in line order, and the count of malformed lines skipped.
pub fn parse_post_lines(text: &str) -> (r: (Vec<ParsedPostRecord>, usize))
    ensures
        models_of(r.0@) == spec_parse_records(spec_lines(text@)),
        r.1 as nat == spec_malformed_count(spec_lines(text@)),
{
    let lines = lines_of(text);
    let mut records: Vec<ParsedPostRecord> = Vec::new();
    let mut malformed: usize = 0;
    let mut i: usize = 0;
    proof {
        assert(models_of(records@) =~= Seq::<PostModel>::empty());
        assert(lines.deep_view().subrange(0, 0) =~= Seq::<Seq<char>>::empty());
    }
    while i < lines.len()
        invariant
            lines.deep_view() == spec_lines(text@),
            i <= lines@.len(),
            malformed <= i,
            models_of(records@) == spec_parse_records(lines.deep_view().subrange(0, i as int)),
            malformed as nat == spec_malformed_count(lines.deep_view().subrange(0, i as int)),
        decreases lines@.len() - i,
    {
        let ghost prefix = lines.deep_view().subrange(0, i as int);
        let ghost prefix1 = lines.deep_view().subrange(0, i + 1);
        proof {
            assert(prefix1.drop_last() =~= prefix);
            assert(prefix1.last() == lines.deep_view()[i as int]);
            assert(lines.deep_view()[i as int] == lines@[i as int]@);
        }
        let ghost before = models_of(records@);
        let outcome = parse_line(lines[i].as_str());
        match outcome {
            LineOutcome::Post(rec) => {
                let ghost m = rec@;
                records.push(rec);
                proof {
                    assert(models_of(records@) =~= before + seq![m]);
                }
            },
            LineOutcome::Blank => {
                proof {
                    assert(spec_parse_line(prefix1.last()) is None);
                    assert(before + Seq::<PostModel>::empty() =~= before);
                }
            },
            LineOutcome::Malformed => {
                malformed = malformed + 1;
                proof {
                    assert(spec_parse_line(prefix1.last()) is None);
                    assert(before + Seq::<PostModel>::empty() =~= before);
                }
            },
        }
        i = i + 1;
    }
    proof {
        assert(lines.deep_view().subrange(0, lines@.len() as int) =~= lines.deep_view());
    }
    (records, malformed)
}

/// A structurally valid line keeps its body segment: the fourth delimiter
/// field of the line is the record's body, unchanged.
pub proof fn lemma_body_segment_kept(line: Seq<char>)
    requires
        !line_is_blank(line),
        line_segments(line).len() >= 4,
    ensures
        spec_parse_line(line) matches Some(m) && m.body == line_segments(line)[3],
{
}

/// Parsing never reorders: the records of `lines` with one more line appended
/// are the records of `lines`, with the new line's record (if any) after them.
pub proof fn lemma_order_preserved(lines: Seq<Seq<char>>, l: Seq<char>)
    ensures
        spec_parse_records(lines.push(l)) == spec_parse_records(lines) + match spec_parse_line(l) {
            Option::Some(m) => seq![m],
            Option::None => seq![],
        },
{
    assert(lines.push(l).drop_last() =~= lines);
    assert(lines.push(l).last() == l);
}

/// A blank line, or one with fewer than four delimiter-separated segments, is
/// skipped: it contributes no record.
pub proof fn lemma_skipped_line_adds_nothing(lines: Seq<Seq<char>>, l: Seq<char>)
    requires
        spec_is_malformed(l) || line_is_blank(l),
    ensures
        spec_parse_records(lines.push(l)) == spec_parse_records(lines),
{
    lemma_order_preserved(lines, l);
    assert(spec_parse_records(lines) + Seq::<PostModel>::empty() =~= spec_parse_records(lines));
}

} // verus!
