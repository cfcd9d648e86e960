//! Poster-identity analytics: the per-token occurrence tally and the
//! deterministic two-pass aggregation that gives every response its running
//! occurrence count and its token's thread-wide total.

use vstd::prelude::*;
use vstd::string::*;
use vstd::pervasive::VecAdditionalExecFns;
use crate::decimal::{spec_decimal, u64_to_decimal};
use crate::parser::{models_of, parse_post_lines, ParsedPostRecord, PostModel, spec_parse_records};
use crate::scan::{lemma_lines_count_le, spec_lines};

verus! {

/// How many of the first `n` records bear the token `t`.
pub open spec fn count_upto(ms: Seq<PostModel>, t: Seq<char>, n: int) -> nat
    decreases n,
    when 0 <= n <= ms.len()
{
    if n <= 0 {
        0
    } else {
        count_upto(ms, t, n - 1) + if ms[n - 1].parsed_user_id == Option::Some(t) {
            1nat
        } else {
            0nat
        }
    }
}

/// How many records of the whole thread bear the token `t`.
pub open spec fn count_all(ms: Seq<PostModel>, t: Seq<char>) -> nat {
    count_upto(ms, t, ms.len() as int)
}

proof fn lemma_count_upto_le(ms: Seq<PostModel>, t: Seq<char>, n: int)
    requires
        0 <= n <= ms.len(),
    ensures
        count_upto(ms, t, n) <= n,
    decreases n,
{
    if n > 0 {
        lemma_count_upto_le(ms, t, n - 1);
    }
}

/// The running count never decreases along the thread.
pub proof fn lemma_count_upto_mono(ms: Seq<PostModel>, t: Seq<char>, a: int, b: int)
    requires
        0 <= a <= b <= ms.len(),
    ensures
        count_upto(ms, t, a) <= count_upto(ms, t, b),
    decreases b,
{
    if a < b {
        lemma_count_upto_mono(ms, t, a, b - 1);
    }
}

proof fn lemma_count_constant(ms: Seq<PostModel>, t: Seq<char>, a: int, b: int)
    requires
        0 <= a <= b <= ms.len(),
        forall|k: int| a <= k < b ==> ms[k].parsed_user_id != Option::Some(t),
    ensures
        count_upto(ms, t, b) == count_upto(ms, t, a),
    decreases b,
{
    if a < b {
        lemma_count_constant(ms, t, a, b - 1);
    }
}

/// A record bearing a token is one more appearance of it: its running count is
/// one above the count before it, at least one, and at most the token's total.
pub proof fn lemma_occurrence_step(ms: Seq<PostModel>, t: Seq<char>, j: int)
    requires
        0 <= j < ms.len(),
        ms[j].parsed_user_id == Option::Some(t),
    ensures
        count_upto(ms, t, j + 1) == count_upto(ms, t, j) + 1,
        1 <= count_upto(ms, t, j + 1) <= count_all(ms, t),
{
    lemma_count_upto_mono(ms, t, j + 1, ms.len() as int);
}

/// Two records bearing the same token have strictly increasing running counts
/// in post order.
pub proof fn lemma_counts_strictly_increase(ms: Seq<PostModel>, t: Seq<char>, i: int, j: int)
    requires
        0 <= i < j < ms.len(),
        ms[i].parsed_user_id == Option::Some(t),
        ms[j].parsed_user_id == Option::Some(t),
    ensures
        count_upto(ms, t, i + 1) < count_upto(ms, t, j + 1),
{
    lemma_count_upto_mono(ms, t, i + 1, j);
    lemma_occurrence_step(ms, t, j);
}

/// The last record bearing a token has running count equal to the total.
pub proof fn lemma_last_bearer_reaches_total(ms: Seq<PostModel>, t: Seq<char>, j: int)
    requires
        0 <= j < ms.len(),
        ms[j].parsed_user_id == Option::Some(t),
        forall|k: int| j < k < ms.len() ==> ms[k].parsed_user_id != Option::Some(t),
    ensures
        count_upto(ms, t, j + 1) == count_all(ms, t),
{
    lemma_count_constant(ms, t, j + 1, ms.len() as int);
}

proof fn lemma_rank_attained_upto(ms: Seq<PostModel>, t: Seq<char>, n: int, k: nat)
    requires
        0 <= n <= ms.len(),
        1 <= k <= count_upto(ms, t, n),
    ensures
        exists|j: int|
            0 <= j < n && ms[j].parsed_user_id == Option::Some(t) && count_upto(ms, t, j + 1)
                == k,
    decreases n,
{
    if ms[n - 1].parsed_user_id == Option::Some(t) && count_upto(ms, t, n) == k {
        assert(0 <= n - 1 < n && ms[n - 1].parsed_user_id == Option::Some(t) && count_upto(
            ms,
            t,
            (n - 1) + 1,
        ) == k);
    } else {
        lemma_rank_attained_upto(ms, t, n - 1, k);
        let j = choose|j: int|
            0 <= j < n - 1 && ms[j].parsed_user_id == Option::Some(t) && count_upto(ms, t, j + 1)
                == k;
        assert(0 <= j < n && ms[j].parsed_user_id == Option::Some(t) && count_upto(ms, t, j + 1)
            == k);
    }
}

/// A token appearing `n` times in a thread attains every running count from 1
/// to `n`: for each such rank there is a record bearing the token whose
/// running count is exactly that rank.
pub proof fn lemma_every_rank_attained(ms: Seq<PostModel>, t: Seq<char>, k: nat)
    requires
        1 <= k <= count_all(ms, t),
    ensures
        exists|j: int|
            0 <= j < ms.len() && ms[j].parsed_user_id == Option::Some(t) && count_upto(
                ms,
                t,
                j + 1,
            ) == k,
{
    lemma_rank_attained_upto(ms, t, ms.len() as int, k);
}

/// A skipped line, blank or malformed, also leaves every token's tally
/// unchanged.
pub proof fn lemma_skipped_line_changes_no_tally(lines: Seq<Seq<char>>, l: Seq<char>, t: Seq<char>)
    requires
        crate::parser::spec_is_malformed(l) || crate::parser::line_is_blank(l),
    ensures
        count_all(spec_parse_records(lines.push(l)), t) == count_all(spec_parse_records(lines), t),
{
    crate::parser::lemma_skipped_line_adds_nothing(lines, l);
}

/// A mapping from identity token to an occurrence count, built in forward
/// passes over the records.
pub struct IdentityTally {
    keys: Vec<String>,
    counts: Vec<u32>,
}

impl IdentityTally {
    /// Every key has a count and no key repeats.
    pub closed spec fn wf(&self) -> bool {
        &&& self.keys@.len() == self.counts@.len()
        &&& forall|i: int, j: int|
            0 <= i < j < self.keys@.len() ==> self.keys@[i]@ != self.keys@[j]@
    }

    /// The count recorded for token `t`; zero when the token is absent.
    pub closed spec fn spec_get(&self, t: Seq<char>) -> nat {
        if exists|i: int| 0 <= i < self.keys@.len() && self.keys@[i]@ == t {
            let i = choose|i: int| 0 <= i < self.keys@.len() && self.keys@[i]@ == t;
            self.counts@[i] as nat
        } else {
            0
        }
    }

    /// An empty tally: every token counts zero.
    pub fn new() -> (r: Self)
        ensures
            r.wf(),
            forall|t: Seq<char>| r.spec_get(t) == 0,
    {
        IdentityTally { keys: Vec::new(), counts: Vec::new() }
    }

    /// Records one more occurrence of `token`.
    pub fn increment(&mut self, token: &String)
        requires
            old(self).wf(),
            old(self).spec_get(token@) < u32::MAX,
        ensures
            final(self).wf(),
            final(self).spec_get(token@) == old(self).spec_get(token@) + 1,
            forall|t: Seq<char>| t != token@ ==> final(self).spec_get(t) == old(self).spec_get(t),
    {
        match index_of_key(&self.keys, token) {
            Some(i) => {
                proof {
                    let ci = choose|q: int|
                        0 <= q < self.keys@.len() && self.keys@[q]@ == token@;
                    assert(ci == i as int);
                }
                let c = self.counts[i];
                self.counts.set(i, c + 1);
                proof {
                    assert forall|t: Seq<char>| t != token@ implies self.spec_get(t) == old(
                        self,
                    ).spec_get(t) by {
                        if exists|q: int| 0 <= q < self.keys@.len() && self.keys@[q]@ == t {
                            let q = choose|q: int|
                                0 <= q < self.keys@.len() && self.keys@[q]@ == t;
                            assert(q != i as int);
                        }
                    }
                }
            },
            None => {
                self.keys.push(token.clone());
                self.counts.push(1);
                proof {
                    let n = old(self).keys@.len() as int;
                    assert(self.keys@[n]@ == token@);
                    let ci = choose|q: int|
                        0 <= q < self.keys@.len() && self.keys@[q]@ == token@;
                    assert(ci == n);
                    assert forall|t: Seq<char>| t != token@ implies self.spec_get(t) == old(
                        self,
                    ).spec_get(t) by {
                        if exists|q: int| 0 <= q < self.keys@.len() && self.keys@[q]@ == t {
                            let q = choose|q: int|
                                0 <= q < self.keys@.len() && self.keys@[q]@ == t;
                            assert(q != n);
                            assert(0 <= q < old(self).keys@.len() && old(self).keys@[q]@ == t);
                            let q2 = choose|q2: int|
                                0 <= q2 < old(self).keys@.len() && old(self).keys@[q2]@ == t;
                            assert(q2 == q) by {
                                if q2 < q {
                                    assert(old(self).keys@[q2]@ != old(self).keys@[q]@);
                                }
                                if q < q2 {
                                    assert(old(self).keys@[q]@ != old(self).keys@[q2]@);
                                }
                            }
                            assert(self.counts@[q] == old(self).counts@[q2]);
                        } else {
                            if exists|q: int|
                                0 <= q < old(self).keys@.len() && old(self).keys@[q]@ == t {
                                let q = choose|q: int|
                                    0 <= q < old(self).keys@.len() && old(self).keys@[q]@ == t;
                                assert(self.keys@[q]@ == t);
                            }
                        }
                    }
                }
            },
        }
    }

    /// The count recorded so far for `token`.
    pub fn get(&self, token: &String) -> (r: u32)
        requires
            self.wf(),
        ensures
            r as nat == self.spec_get(token@),
    {
        match index_of_key(&self.keys, token) {
            Some(i) => {
                proof {
                    let ci = choose|q: int|
                        0 <= q < self.keys@.len() && self.keys@[q]@ == token@;
                    assert(ci == i as int);
                }
                self.counts[i]
            },
            None => 0,
        }
    }
}

fn index_of_key(keys: &Vec<String>, token: &String) -> (r: Option<usize>)
    ensures
        match r {
            Some(i) => i < keys@.len() && keys@[i as int]@ == token@,
            None => forall|q: int| 0 <= q < keys@.len() ==> keys@[q]@ != token@,
        },
{
    let mut i: usize = 0;
    while i < keys.len()
        invariant
            i <= keys@.len(),
            forall|q: int| 0 <= q < i ==> keys@[q]@ != token@,
        decreases keys@.len() - i,
    {
        if keys[i] == *token {
            return Some(i);
        }
        i = i + 1;
    }
    None
}

/// First pass: tallies the thread-wide total of every identity token.
pub fn build_tally(records: &Vec<ParsedPostRecord>) -> (r: IdentityTally)
    requires
        records@.len() <= u32::MAX,
    ensures
        r.wf(),
        forall|t: Seq<char>| r.spec_get(t) == count_all(models_of(records@), t),
{
    let ghost ms = models_of(records@);
    let mut tally = IdentityTally::new();
    let mut i: usize = 0;
    while i < records.len()
        invariant
            ms == models_of(records@),
            records@.len() <= u32::MAX,
            i <= records@.len(),
            tally.wf(),
            forall|t: Seq<char>| tally.spec_get(t) == count_upto(ms, t, i as int),
        decreases records@.len() - i,
    {
        let rec = &records[i];
        proof {
            assert(ms[i as int] == records@[i as int]@);
        }
        let ghost before = tally;
        match &rec.parsed_user_id {
            Some(tok) => {
                proof {
                    lemma_count_upto_le(ms, tok@, i as int);
                }
                tally.increment(tok);
                proof {
                    assert(ms[i as int].parsed_user_id == Option::Some(tok@));
                    assert forall|t: Seq<char>| tally.spec_get(t) == count_upto(
                        ms,
                        t,
                        i + 1,
                    ) by {
                        if t == tok@ {
                            assert(tally.spec_get(t) == before.spec_get(t) + 1);
                        } else {
                            assert(tally.spec_get(t) == before.spec_get(t));
                        }
                    }
                }
            },
            None => {
                proof {
                    assert(ms[i as int].parsed_user_id is None);
                    assert forall|t: Seq<char>| tally.spec_get(t) == count_upto(
                        ms,
                        t,
                        i + 1,
                    ) by {
                        assert(ms[i as int].parsed_user_id != Option::Some(t));
                    }
                }
            },
        }
        i = i + 1;
    }
    tally
}

/// A final, display-ready response record.
pub struct ResponseItem {
    pub id: String,
    pub author: String,
    pub mail: String,
    pub created_at: String,
    pub user_id_info: String,
    pub content: String,
    pub parsed_user_id: Option<String>,
    pub id_occurrence_count: u32,
    pub id_total_count: u32,
}

/// `r` is the final response at position `i` of the parsed models: the fields
/// are carried over, the id is the 1-based position in decimal, and the two
/// counters are the token's running count and thread-wide total, both zero
/// when the record bears no token.
pub open spec fn response_matches(r: &ResponseItem, ms: Seq<PostModel>, i: int) -> bool {
    &&& 0 <= i < ms.len()
    &&& r.id@ == spec_decimal((i + 1) as nat)
    &&& r.author@ == ms[i].author
    &&& r.mail@ == ms[i].mail
    &&& r.created_at@ == ms[i].date
    &&& r.user_id_info@ == ms[i].user_id_info
    &&& r.content@ == ms[i].body
    &&& r.parsed_user_id.deep_view() == ms[i].parsed_user_id
    &&& match ms[i].parsed_user_id {
        Option::Some(t) => r.id_occurrence_count as nat == count_upto(ms, t, i + 1)
            && r.id_total_count as nat == count_all(ms, t),
        Option::None => r.id_occurrence_count == 0 && r.id_total_count == 0,
    }
}

/// For two responses bearing the same token, the earlier one has the strictly
/// smaller occurrence count, and neither count exceeds the token's total.
pub proof fn lemma_response_occurrences(
    out: Seq<ResponseItem>,
    ms: Seq<PostModel>,
    t: Seq<char>,
    i: int,
    j: int,
)
    requires
        out.len() == ms.len(),
        forall|k: int| 0 <= k < ms.len() ==> response_matches(&out[k], ms, k),
        0 <= i < j < ms.len(),
        ms[i].parsed_user_id == Option::Some(t),
        ms[j].parsed_user_id == Option::Some(t),
    ensures
        out[i].id_occurrence_count < out[j].id_occurrence_count,
        out[j].id_occurrence_count <= out[j].id_total_count,
{
    lemma_counts_strictly_increase(ms, t, i, j);
    lemma_occurrence_step(ms, t, j);
}

/// Second pass and assembly: walks the records in order, assigns each its
/// running occurrence count and its token's total, and zips everything into
/// the final response list, in the same order.
pub fn assign_counts(records: &Vec<ParsedPostRecord>, totals: &IdentityTally) -> (r: Vec<
    ResponseItem,
>)
    requires
        records@.len() <= u32::MAX,
        totals.wf(),
        forall|t: Seq<char>| totals.spec_get(t) == count_all(models_of(records@), t),
    ensures
        r@.len() == records@.len(),
        forall|i: int| 0 <= i < records@.len() ==> response_matches(&r@[i], models_of(records@), i),
{
    let ghost ms = models_of(records@);
    let mut running = IdentityTally::new();
    let mut out: Vec<ResponseItem> = Vec::new();
    let mut i: usize = 0;
    while i < records.len()
        invariant
            ms == models_of(records@),
            records@.len() <= u32::MAX,
            totals.wf(),
            forall|t: Seq<char>| totals.spec_get(t) == count_all(ms, t),
            i <= records@.len(),
            running.wf(),
            forall|t: Seq<char>| running.spec_get(t) == count_upto(ms, t, i as int),
            out@.len() == i,
            forall|j: int| 0 <= j < i ==> response_matches(&out@[j], ms, j),
        decreases records@.len() - i,
    {
        let rec = &records[i];
        proof {
            assert(ms[i as int] == records@[i as int]@);
        }
        let ghost before = running;
        let mut occ: u32 = 0;
        let mut tot: u32 = 0;
        match &rec.parsed_user_id {
            Some(tok) => {
                proof {
                    lemma_count_upto_le(ms, tok@, i as int);
                    assert(ms[i as int].parsed_user_id == Option::Some(tok@));
                }
                running.increment(tok);
                occ = running.get(tok);
                proof {
                    lemma_count_upto_le(ms, tok@, ms.len() as int);
                }
                tot = totals.get(tok);
                proof {
                    assert forall|t: Seq<char>| running.spec_get(t) == count_upto(
                        ms,
                        t,
                        i + 1,
                    ) by {
                        if t == tok@ {
                            assert(running.spec_get(t) == before.spec_get(t) + 1);
                        } else {
                            assert(running.spec_get(t) == before.spec_get(t));
                        }
                    }
                }
            },
            None => {
                proof {
                    assert(ms[i as int].parsed_user_id is None);
                    assert forall|t: Seq<char>| running.spec_get(t) == count_upto(
                        ms,
                        t,
                        i + 1,
                    ) by {
                        assert(ms[i as int].parsed_user_id != Option::Some(t));
                    }
                }
            },
        }
        let token_copy = match &rec.parsed_user_id {
            Some(s) => Some(s.clone()),
            None => None,
        };
        let item = ResponseItem {
            id: u64_to_decimal((i as u64) + 1),
            author: rec.author.clone(),
            mail: rec.mail.clone(),
            created_at: rec.date.clone(),
            user_id_info: rec.user_id_info.clone(),
            content: rec.body.clone(),
            parsed_user_id: token_copy,
            id_occurrence_count: occ,
            id_total_count: tot,
        };
        out.push(item);
        i = i + 1;
    }
    out
}

/// Parses a whole thread dump into the final response list: one record per
/// valid line, in line order, with 1-based positional ids, running
/// identity-occurrence counts, and thread-wide totals.
pub fn parse_thread_content(text: &str) -> (r: Vec<ResponseItem>)
    requires
        text@.len() <= u32::MAX,
    ensures
        ({
            let ms = spec_parse_records(spec_lines(text@));
            &&& r@.len() == ms.len()
            &&& forall|i: int| 0 <= i < ms.len() ==> response_matches(&r@[i], ms, i)
        }),
{
    let parsed = parse_post_lines(text);
    let records = parsed.0;
    proof {
        lemma_lines_count_le(text@);
        crate::parser::lemma_records_count_le(spec_lines(text@));
        assert(models_of(records@).len() == records@.len());
    }
    let totals = build_tally(&records);
    assign_counts(&records, &totals)
}

} // verus!
