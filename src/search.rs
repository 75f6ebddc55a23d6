use vstd::prelude::*;

verus! {

/// The problem domain a corpus record belongs to.
#[derive(Clone, Copy, PartialEq, Eq, Debug, Structural)]
pub enum Category {
    Leetcode,
    AdventOfCode,
    Google,
}

/// The lower-case tag text of a category, matched by queries like a title.
pub open spec fn tag_of(c: Category) -> Seq<char> {
    match c {
        Category::Leetcode => seq!['l', 'e', 'e', 't', 'c', 'o', 'd', 'e'],
        Category::AdventOfCode => seq!['a', 'd', 'v', 'e', 'n', 't', 'o', 'f', 'c', 'o', 'd', 'e'],
        Category::Google => seq!['g', 'o', 'o', 'g', 'l', 'e'],
    }
}

impl Category {
    pub fn tag(&self) -> (r: Vec<char>)
        ensures
            r@ == tag_of(*self),
    {
        match self {
            Category::Leetcode => vec!['l', 'e', 'e', 't', 'c', 'o', 'd', 'e'],
            Category::AdventOfCode => vec!['a', 'd', 'v', 'e', 'n', 't', 'o', 'f', 'c', 'o', 'd', 'e'],
            Category::Google => vec!['g', 'o', 'o', 'g', 'l', 'e'],
        }
    }

    /// The category whose tag is exactly `text`.
    pub fn from_tag(text: &String) -> (r: Option<Category>)
        ensures
            r == category_named(text@),
    {
        let t = chars_of(text);
        if tag_is(&t, Category::Leetcode) {
            Some(Category::Leetcode)
        } else if tag_is(&t, Category::AdventOfCode) {
            Some(Category::AdventOfCode)
        } else if tag_is(&t, Category::Google) {
            Some(Category::Google)
        } else {
            None
        }
    }
}

pub open spec fn category_named(s: Seq<char>) -> Option<Category> {
    if s == tag_of(Category::Leetcode) {
        Some(Category::Leetcode)
    } else if s == tag_of(Category::AdventOfCode) {
        Some(Category::AdventOfCode)
    } else if s == tag_of(Category::Google) {
        Some(Category::Google)
    } else {
        None
    }
}

fn tag_is(t: &Vec<char>, c: Category) -> (r: bool)
    ensures
        r == (t@ == tag_of(c)),
{
    let tag = c.tag();
    let same = t.len() == tag.len() && occurs_at_exec(t, &tag, 0);
    proof {
        if t@ == tag@ {
            assert(t@.subrange(0, tag@.len() as int) =~= tag@);
        }
        if same {
            assert(t@ =~= tag@);
        }
    }
    same
}

/// Read-only projection of one corpus record.
pub struct ProblemSummary {
    pub id: u64,
    pub category: Category,
    pub title: String,
    pub link: String,
}

impl ProblemSummary {
    pub fn new(id: u64, category: Category, title: String, link: String) -> (r: ProblemSummary)
        ensures
            r == (ProblemSummary { id, category, title, link }),
    {
        ProblemSummary { id, category, title, link }
    }

    pub fn duplicate(&self) -> (r: ProblemSummary)
        ensures
            r == *self,
    {
        ProblemSummary {
            id: self.id,
            category: self.category,
            title: self.title.clone(),
            link: self.link.clone(),
        }
    }
}

/// A query issued by the session `session`, optionally restricted to one category.
pub struct SearchQuery {
    pub session: u64,
    pub text: String,
    pub category: Option<Category>,
}

impl SearchQuery {
    pub fn new(session: u64, text: String, category: Option<Category>) -> (r: SearchQuery)
        ensures
            r == (SearchQuery { session, text, category }),
    {
        SearchQuery { session, text, category }
    }
}

/// Summaries in relevance order, ties broken by ascending identifier.
pub struct SearchResult {
    pub items: Vec<ProblemSummary>,
}

/// The default bound on the number of summaries in one result.
pub const MAX_RESULTS: usize = 20;

pub const RANK_EXACT: u8 = 0;

pub const RANK_PREFIX: u8 = 1;

pub const RANK_SUBSTRING: u8 = 2;

pub const RANK_NONE: u8 = 3;

/// The text that `str::to_lowercase` makes of `s`.
pub uninterp spec fn lower_of(s: Seq<char>) -> Seq<char>;

/// Relies on `str::to_lowercase`: the Unicode lower-case mapping of each
/// character, which depends on the text alone.
#[verifier::external_body]
fn lowercase(s: &str) -> (r: String)
    ensures
        r@ == lower_of(s@),
{
    s.to_lowercase()
}

/// `q` occurs in `t` starting at position `p`.
pub open spec fn occurs_at(t: Seq<char>, q: Seq<char>, p: int) -> bool {
    0 <= p && p + q.len() <= t.len() && t.subrange(p, p + q.len()) == q
}

/// Position `p` of `t` is the start of a space-separated token.
pub open spec fn starts_token(t: Seq<char>, p: int) -> bool {
    p == 0 || (0 < p && p <= t.len() && t[p - 1] == ' ')
}

pub open spec fn has_token_prefix(t: Seq<char>, q: Seq<char>) -> bool {
    exists|p: int| starts_token(t, p) && #[trigger] occurs_at(t, q, p)
}

pub open spec fn contains(t: Seq<char>, q: Seq<char>) -> bool {
    exists|p: int| #[trigger] occurs_at(t, q, p)
}

/// How well the folded query `ql` matches a record with the folded title `t`
/// and the tag `tag`: exact title, then a title token that starts with the
/// query, then a substring of the title or of the tag. An empty query matches
/// nothing.
pub open spec fn folded_rank(ql: Seq<char>, t: Seq<char>, tag: Seq<char>) -> u8 {
    if ql.len() == 0 {
        RANK_NONE
    } else if t == ql {
        RANK_EXACT
    } else if has_token_prefix(t, ql) {
        RANK_PREFIX
    } else if contains(t, ql) || contains(tag, ql) {
        RANK_SUBSTRING
    } else {
        RANK_NONE
    }
}

/// How well the query text `q` matches a record with this title and tag,
/// comparing lower-cased texts. An empty query matches nothing.
pub open spec fn rank_of(q: Seq<char>, title: Seq<char>, tag: Seq<char>) -> u8 {
    if q.len() == 0 {
        RANK_NONE
    } else {
        folded_rank(lower_of(q), lower_of(title), tag)
    }
}

pub open spec fn admits(filter: Option<Category>, c: Category) -> bool {
    match filter {
        None => true,
        Some(f) => f == c,
    }
}

pub open spec fn rank_in(q: Seq<char>, filter: Option<Category>, p: ProblemSummary) -> u8 {
    if admits(filter, p.category) {
        rank_of(q, p.title@, tag_of(p.category))
    } else {
        RANK_NONE
    }
}

/// Ordering of (rank, identifier) keys.
pub open spec fn key_le(a: (u8, u64), b: (u8, u64)) -> bool {
    a.0 < b.0 || (a.0 == b.0 && a.1 <= b.1)
}

/// The first position at or after `j` whose key is greater than `(rank, id)`.
pub open spec fn slot_from(s: Seq<(u8, u64, usize)>, rank: u8, id: u64, j: int) -> int
    decreases s.len() - j,
{
    if j >= s.len() {
        s.len() as int
    } else if !key_le((s[j].0, s[j].1), (rank, id)) {
        j
    } else {
        slot_from(s, rank, id, j + 1)
    }
}

/// The matching records among the first `n` of `corpus`, as (rank, id, position)
/// entries, each inserted after all entries whose key is not greater.
pub open spec fn ranked(
    q: Seq<char>,
    filter: Option<Category>,
    corpus: Seq<ProblemSummary>,
    n: nat,
) -> Seq<(u8, u64, usize)>
    decreases n,
{
    if n == 0 {
        seq![]
    } else {
        let prev = ranked(q, filter, corpus, (n - 1) as nat);
        let p = corpus[n - 1];
        let r = rank_in(q, filter, p);
        if r < RANK_NONE {
            prev.insert(slot_from(prev, r, p.id, 0), (r, p.id, (n - 1) as usize))
        } else {
            prev
        }
    }
}

/// The records that a search returns: the best `limit` matches in rank order.
pub open spec fn search_result(
    q: Seq<char>,
    filter: Option<Category>,
    corpus: Seq<ProblemSummary>,
    limit: nat,
) -> Seq<ProblemSummary> {
    let e = ranked(q, filter, corpus, corpus.len());
    let k = if e.len() < limit {
        e.len()
    } else {
        limit
    };
    e.take(k as int).map_values(|x: (u8, u64, usize)| corpus[x.2 as int])
}

pub fn chars_of(s: &String) -> (r: Vec<char>)
    ensures
        r@ == s@,
{
    let n = s.as_str().unicode_len();
    let mut r: Vec<char> = Vec::new();
    let mut i: usize = 0;
    while i < n
        invariant
            n == s@.len(),
            i <= n,
            r@ == s@.take(i as int),
        decreases n - i,
    {
        r.push(s.as_str().get_char(i));
        i = i + 1;
        assert(r@ =~= s@.take(i as int));
    }
    assert(s@.take(n as int) =~= s@);
    r
}

pub(crate) fn occurs_at_exec(t: &Vec<char>, q: &Vec<char>, p: usize) -> (r: bool)
    ensures
        r == occurs_at(t@, q@, p as int),
{
    if p > t.len() || q.len() > t.len() - p {
        return false;
    }
    let tl = t.len();
    let mut k: usize = 0;
    while k < q.len()
        invariant
            tl == t@.len(),
            p + q@.len() <= t@.len(),
            k <= q@.len(),
            forall|j: int| 0 <= j < k ==> t@[p + j] == q@[j],
        decreases q@.len() - k,
    {
        if t[p + k] != q[k] {
            assert(t@.subrange(p as int, p + q@.len())[k as int] != q@[k as int]);
            return false;
        }
        k = k + 1;
    }
    assert(t@.subrange(p as int, p + q@.len()) =~= q@);
    true
}

fn find_occurrence(t: &Vec<char>, q: &Vec<char>, token_only: bool) -> (r: bool)
    ensures
        r == if token_only {
            has_token_prefix(t@, q@)
        } else {
            contains(t@, q@)
        },
{
    let mut p: usize = 0;
    while p < t.len()
        invariant
            p <= t@.len(),
            forall|pp: int|
                0 <= pp < p ==> !((!token_only || starts_token(t@, pp)) && #[trigger] occurs_at(
                    t@,
                    q@,
                    pp,
                )),
        decreases t@.len() - p,
    {
        if (!token_only || p == 0 || t[p - 1] == ' ') && occurs_at_exec(t, q, p) {
            assert(occurs_at(t@, q@, p as int));
            return true;
        }
        p = p + 1;
    }
    if (!token_only || p == 0 || t[p - 1] == ' ') && occurs_at_exec(t, q, p) {
        assert(occurs_at(t@, q@, p as int));
        return true;
    }
    assert forall|pp: int| !((!token_only || starts_token(t@, pp)) && #[trigger] occurs_at(t@, q@, pp)) by {
        assert(pp > t@.len() ==> !occurs_at(t@, q@, pp));
    }
    false
}

/// Ranks a record from the folded query `ql`, its folded title `t` and its tag.
pub fn rank_folded(ql: &Vec<char>, t: &Vec<char>, tag: &Vec<char>) -> (r: u8)
    ensures
        r == folded_rank(ql@, t@, tag@),
{
    if ql.len() == 0 {
        return RANK_NONE;
    }
    let whole = t.len() == ql.len() && occurs_at_exec(t, ql, 0);
    proof {
        if t@ == ql@ {
            assert(t@.subrange(0, ql@.len() as int) =~= ql@);
        }
    }
    if whole {
        assert(t@ =~= ql@);
        RANK_EXACT
    } else if find_occurrence(t, ql, true) {
        RANK_PREFIX
    } else if find_occurrence(t, ql, false) || find_occurrence(tag, ql, false) {
        RANK_SUBSTRING
    } else {
        RANK_NONE
    }
}

fn rank_exec(
    ql: &Vec<char>,
    q_empty: bool,
    q: Ghost<Seq<char>>,
    filter: Option<Category>,
    p: &ProblemSummary,
) -> (r: u8)
    requires
        ql@ == lower_of(q@),
        q_empty == (q@.len() == 0),
    ensures
        r == rank_in(q@, filter, *p),
{
    let admitted = match filter {
        None => true,
        Some(f) => f == p.category,
    };
    if !admitted || q_empty {
        return RANK_NONE;
    }
    let t = chars_of(&lowercase(p.title.as_str()));
    rank_folded(ql, &t, &p.category.tag())
}

proof fn lemma_slot_bounds(s: Seq<(u8, u64, usize)>, rank: u8, id: u64, j: int)
    requires
        0 <= j <= s.len(),
    ensures
        j <= slot_from(s, rank, id, j) <= s.len(),
    decreases s.len() - j,
{
    if j < s.len() && key_le((s[j].0, s[j].1), (rank, id)) {
        lemma_slot_bounds(s, rank, id, j + 1);
    }
}

proof fn lemma_ranked_empty_query(
    q: Seq<char>,
    filter: Option<Category>,
    corpus: Seq<ProblemSummary>,
    n: nat,
)
    requires
        q.len() == 0,
    ensures
        ranked(q, filter, corpus, n) == Seq::<(u8, u64, usize)>::empty(),
    decreases n,
{
    if n > 0 {
        lemma_ranked_empty_query(q, filter, corpus, (n - 1) as nat);
    }
}

/// An empty query text yields an empty result, whatever the corpus and filter.
pub proof fn lemma_empty_query_empty_result(
    q: Seq<char>,
    filter: Option<Category>,
    corpus: Seq<ProblemSummary>,
    limit: nat,
)
    requires
        q.len() == 0,
    ensures
        search_result(q, filter, corpus, limit).len() == 0,
{
    lemma_ranked_empty_query(q, filter, corpus, corpus.len());
}

pub open spec fn entry_key(x: (u8, u64, usize)) -> (u8, u64) {
    (x.0, x.1)
}

pub open spec fn keys_sorted(s: Seq<(u8, u64, usize)>) -> bool {
    forall|a: int, b: int|
        0 <= a < b < s.len() ==> key_le(entry_key(#[trigger] s[a]), entry_key(#[trigger] s[b]))
}

proof fn lemma_slot_splits(s: Seq<(u8, u64, usize)>, rank: u8, id: u64, j: int)
    requires
        0 <= j <= s.len(),
        keys_sorted(s),
        forall|k: int| 0 <= k < j ==> key_le(entry_key(#[trigger] s[k]), (rank, id)),
    ensures
        forall|k: int|
            0 <= k < slot_from(s, rank, id, j) ==> key_le(entry_key(#[trigger] s[k]), (rank, id)),
        forall|k: int|
            slot_from(s, rank, id, j) <= k < s.len() ==> key_le((rank, id), entry_key(#[trigger] s[k])),
    decreases s.len() - j,
{
    if j < s.len() {
        if key_le(entry_key(s[j]), (rank, id)) {
            lemma_slot_splits(s, rank, id, j + 1);
        } else {
            assert forall|k: int| j <= k < s.len() implies key_le((rank, id), entry_key(#[trigger] s[k])) by {
                if k > j {
                    assert(key_le(entry_key(s[j]), entry_key(s[k])));
                }
            }
        }
    }
}

/// Every entry of `ranked` stands for a matching record among the first `n`,
/// with that record's rank and identifier, and the entries are in key order.
proof fn lemma_ranked_facts(q: Seq<char>, filter: Option<Category>, corpus: Seq<ProblemSummary>, n: nat)
    requires
        n <= corpus.len(),
        corpus.len() <= usize::MAX,
    ensures
        keys_sorted(ranked(q, filter, corpus, n)),
        forall|k: int|
            0 <= k < ranked(q, filter, corpus, n).len() ==> {
                let x = #[trigger] ranked(q, filter, corpus, n)[k];
                &&& x.2 < n
                &&& x.0 == rank_in(q, filter, corpus[x.2 as int])
                &&& x.1 == corpus[x.2 as int].id
                &&& x.0 < RANK_NONE
            },
        forall|a: int, b: int|
            0 <= a < b < ranked(q, filter, corpus, n).len() ==> (#[trigger] ranked(
                q,
                filter,
                corpus,
                n,
            )[a]).2 != (#[trigger] ranked(q, filter, corpus, n)[b]).2,
        forall|j: int|
            0 <= j < n && rank_in(q, filter, #[trigger] corpus[j]) < RANK_NONE ==> exists|k: int|
                0 <= k < ranked(q, filter, corpus, n).len() && (#[trigger] ranked(
                    q,
                    filter,
                    corpus,
                    n,
                )[k]).2 == j,
    decreases n,
{
    if n > 0 {
        let prev = ranked(q, filter, corpus, (n - 1) as nat);
        lemma_ranked_facts(q, filter, corpus, (n - 1) as nat);
        let p = corpus[n - 1];
        let r = rank_in(q, filter, p);
        if r < RANK_NONE {
            let slot = slot_from(prev, r, p.id, 0);
            lemma_slot_bounds(prev, r, p.id, 0);
            lemma_slot_splits(prev, r, p.id, 0);
            let x = (r, p.id, (n - 1) as usize);
            let e = prev.insert(slot, x);
            assert forall|k: int| 0 <= k < e.len() implies e[k] == if k < slot {
                prev[k]
            } else if k == slot {
                x
            } else {
                prev[k - 1]
            } by {}
            assert forall|a: int, b: int| 0 <= a < b < e.len() implies key_le(
                entry_key(#[trigger] e[a]),
                entry_key(#[trigger] e[b]),
            ) by {
                if a < slot && b > slot {
                    assert(key_le(entry_key(prev[a]), (r, p.id)));
                    assert(key_le((r, p.id), entry_key(prev[b - 1])));
                } else if a < slot && b < slot {
                    assert(key_le(entry_key(prev[a]), entry_key(prev[b])));
                } else if a > slot {
                    assert(key_le(entry_key(prev[a - 1]), entry_key(prev[b - 1])));
                } else if a == slot {
                    assert(key_le((r, p.id), entry_key(prev[b - 1])));
                } else {
                    assert(key_le(entry_key(prev[a]), (r, p.id)));
                }
            }
            assert forall|a: int, b: int| 0 <= a < b < e.len() implies (#[trigger] e[a]).2 != (
            #[trigger] e[b]).2 by {
                if a != slot && b != slot {
                    let pa = if a < slot { a } else { a - 1 };
                    let pb = if b < slot { b } else { b - 1 };
                    assert(prev[pa].2 != prev[pb].2);
                } else if a == slot {
                    assert(prev[b - 1].2 < n - 1);
                } else {
                    assert(a < slot);
                    assert(prev[a].2 < n - 1);
                }
            }
            assert forall|j: int|
                0 <= j < n && rank_in(q, filter, #[trigger] corpus[j]) < RANK_NONE implies exists|k: int|
                0 <= k < e.len() && (#[trigger] e[k]).2 == j by {
                if j == n - 1 {
                    assert(e[slot].2 == j);
                } else {
                    let k0 = choose|k: int| 0 <= k < prev.len() && (#[trigger] prev[k]).2 == j;
                    if k0 < slot {
                        assert(e[k0].2 == j);
                    } else {
                        assert(e[k0 + 1].2 == j);
                    }
                }
            }
        } else {
            assert forall|j: int|
                0 <= j < n && rank_in(q, filter, #[trigger] corpus[j]) < RANK_NONE implies exists|k: int|
                0 <= k < prev.len() && (#[trigger] prev[k]).2 == j by {
                assert(j != n - 1);
            }
        }
    }
}

/// A search result holds only records that match the query, in relevance
/// order (exact, then token prefix, then substring), ties in ascending
/// identifier order.
pub proof fn lemma_search_result_ordered(
    q: Seq<char>,
    filter: Option<Category>,
    corpus: Seq<ProblemSummary>,
    limit: nat,
)
    requires
        corpus.len() <= usize::MAX,
    ensures
        ({
            let r = search_result(q, filter, corpus, limit);
            &&& r.len() <= limit
            &&& forall|k: int| 0 <= k < r.len() ==> rank_in(q, filter, #[trigger] r[k]) < RANK_NONE
            &&& forall|a: int, b: int|
                0 <= a < b < r.len() ==> key_le(
                    (rank_in(q, filter, #[trigger] r[a]), r[a].id),
                    (rank_in(q, filter, #[trigger] r[b]), r[b].id),
                )
        }),
{
    let e = ranked(q, filter, corpus, corpus.len());
    lemma_ranked_facts(q, filter, corpus, corpus.len());
    let r = search_result(q, filter, corpus, limit);
    assert forall|k: int| 0 <= k < r.len() implies r[k] == corpus[e[k].2 as int] by {}
    assert forall|a: int, b: int| 0 <= a < b < r.len() implies key_le(
        (rank_in(q, filter, #[trigger] r[a]), r[a].id),
        (rank_in(q, filter, #[trigger] r[b]), r[b].id),
    ) by {
        assert(key_le(entry_key(e[a]), entry_key(e[b])));
    }
}

/// Corpus positions of the records a search returns, in result order.
pub open spec fn result_positions(
    q: Seq<char>,
    filter: Option<Category>,
    corpus: Seq<ProblemSummary>,
    limit: nat,
) -> Seq<int> {
    let e = ranked(q, filter, corpus, corpus.len());
    let k = if e.len() < limit {
        e.len()
    } else {
        limit
    };
    e.take(k as int).map_values(|x: (u8, u64, usize)| x.2 as int)
}

/// A search result comes from distinct corpus positions, and every matching
/// record is in it unless `limit` records that rank no lower fill it.
pub proof fn lemma_search_result_complete(
    q: Seq<char>,
    filter: Option<Category>,
    corpus: Seq<ProblemSummary>,
    limit: nat,
)
    requires
        corpus.len() <= usize::MAX,
    ensures
        ({
            let r = search_result(q, filter, corpus, limit);
            let pos = result_positions(q, filter, corpus, limit);
            &&& pos.len() == r.len()
            &&& forall|k: int| 0 <= k < pos.len() ==> 0 <= #[trigger] pos[k] < corpus.len() && r[k]
                == corpus[pos[k]]
            &&& forall|a: int, b: int| 0 <= a < b < pos.len() ==> #[trigger] pos[a] != #[trigger] pos[b]
            &&& forall|j: int|
                0 <= j < corpus.len() && rank_in(q, filter, #[trigger] corpus[j]) < RANK_NONE ==> (
                exists|k: int| 0 <= k < pos.len() && #[trigger] pos[k] == j) || (r.len() == limit
                    && forall|k: int|
                    0 <= k < r.len() ==> key_le(
                        (rank_in(q, filter, #[trigger] r[k]), r[k].id),
                        (rank_in(q, filter, corpus[j]), corpus[j].id),
                    ))
        }),
{
    let e = ranked(q, filter, corpus, corpus.len());
    lemma_ranked_facts(q, filter, corpus, corpus.len());
    let r = search_result(q, filter, corpus, limit);
    let pos = result_positions(q, filter, corpus, limit);
    assert forall|k: int| 0 <= k < pos.len() implies pos[k] == e[k].2 && r[k] == corpus[e[k].2 as int] by {}
    assert forall|a: int, b: int| 0 <= a < b < pos.len() implies #[trigger] pos[a] != #[trigger] pos[b] by {
        assert(e[a].2 != e[b].2);
    }
    assert forall|j: int|
        0 <= j < corpus.len() && rank_in(q, filter, #[trigger] corpus[j]) < RANK_NONE implies (exists|
        k: int,
    | 0 <= k < pos.len() && #[trigger] pos[k] == j) || (r.len() == limit && forall|k: int|
        0 <= k < r.len() ==> key_le(
            (rank_in(q, filter, #[trigger] r[k]), r[k].id),
            (rank_in(q, filter, corpus[j]), corpus[j].id),
        )) by {
        let m = choose|m: int| 0 <= m < e.len() && (#[trigger] e[m]).2 == j;
        if m < pos.len() {
            assert(pos[m] == j);
        } else {
            assert forall|k: int| 0 <= k < r.len() implies key_le(
                (rank_in(q, filter, #[trigger] r[k]), r[k].id),
                (rank_in(q, filter, corpus[j]), corpus[j].id),
            ) by {
                assert(key_le(entry_key(e[k]), entry_key(e[m])));
            }
        }
    }
}

/// Answers `query` against `corpus`: the matching records in rank order, ties
/// broken by ascending identifier, at most `limit` of them.
pub fn search(query: &SearchQuery, corpus: &Vec<ProblemSummary>, limit: usize) -> (r: SearchResult)
    ensures
        r.items@ == search_result(query.text@, query.category, corpus@, limit as nat),
        query.text@.len() == 0 ==> r.items@.len() == 0,
        r.items@.len() <= limit,
        forall|k: int|
            0 <= k < r.items@.len() ==> rank_in(query.text@, query.category, #[trigger] r.items@[k])
                < RANK_NONE,
        forall|a: int, b: int|
            0 <= a < b < r.items@.len() ==> key_le(
                (rank_in(query.text@, query.category, #[trigger] r.items@[a]), r.items@[a].id),
                (rank_in(query.text@, query.category, #[trigger] r.items@[b]), r.items@[b].id),
            ),
        ({
            let pos = result_positions(query.text@, query.category, corpus@, limit as nat);
            &&& pos.len() == r.items@.len()
            &&& forall|k: int|
                0 <= k < pos.len() ==> 0 <= #[trigger] pos[k] < corpus@.len() && r.items@[k]
                    == corpus@[pos[k]]
            &&& forall|a: int, b: int| 0 <= a < b < pos.len() ==> #[trigger] pos[a] != #[trigger] pos[b]
            &&& forall|j: int|
                0 <= j < corpus@.len() && rank_in(query.text@, query.category, #[trigger] corpus@[j])
                    < RANK_NONE ==> (exists|k: int| 0 <= k < pos.len() && #[trigger] pos[k] == j) || (
                r.items@.len() == limit && forall|k: int|
                    0 <= k < r.items@.len() ==> key_le(
                        (rank_in(query.text@, query.category, #[trigger] r.items@[k]), r.items@[k].id),
                        (rank_in(query.text@, query.category, corpus@[j]), corpus@[j].id),
                    ))
        }),
{
    let ql = chars_of(&lowercase(query.text.as_str()));
    let q_empty = query.text.as_str().unicode_len() == 0;
    let mut entries: Vec<(u8, u64, usize)> = Vec::new();
    let mut i: usize = 0;
    while i < corpus.len()
        invariant
            i <= corpus@.len(),
            ql@ == lower_of(query.text@),
            q_empty == (query.text@.len() == 0),
            entries@ == ranked(query.text@, query.category, corpus@, i as nat),
        decreases corpus@.len() - i,
    {
        let p = &corpus[i];
        let r = rank_exec(&ql, q_empty, Ghost(query.text@), query.category, p);
        if r < RANK_NONE {
            let mut j: usize = 0;
            while j < entries.len() && (entries[j].0 < r || (entries[j].0 == r && entries[j].1
                <= p.id))
                invariant
                    j <= entries@.len(),
                    slot_from(entries@, r, p.id, 0) == slot_from(entries@, r, p.id, j as int),
                decreases entries@.len() - j,
            {
                j = j + 1;
            }
            entries.insert(j, (r, p.id, i));
        }
        i = i + 1;
        assert(corpus@[i - 1] == *p);
    }
    proof {
        lemma_ranked_facts(query.text@, query.category, corpus@, corpus@.len());
    }
    let ghost e = entries@;
    let mut items: Vec<ProblemSummary> = Vec::new();
    let mut k: usize = 0;
    while k < entries.len() && k < limit
        invariant
            e == entries@,
            k <= entries@.len(),
            k <= limit,
            forall|m: int| 0 <= m < e.len() ==> (#[trigger] e[m]).2 < corpus@.len(),
            items@ =~= e.take(k as int).map_values(|x: (u8, u64, usize)| corpus@[x.2 as int]),
        decreases entries@.len() - k,
    {
        let c = corpus[entries[k].2].duplicate();
        items.push(c);
        k = k + 1;
        assert(items@ =~= e.take(k as int).map_values(|x: (u8, u64, usize)| corpus@[x.2 as int]));
    }
    assert(e == ranked(query.text@, query.category, corpus@, corpus@.len()));
    assert(k == if e.len() < limit {
        e.len()
    } else {
        limit as nat
    });
    proof {
        lemma_search_result_ordered(query.text@, query.category, corpus@, limit as nat);
        lemma_search_result_complete(query.text@, query.category, corpus@, limit as nat);
        if query.text@.len() == 0 {
            lemma_empty_query_empty_result(query.text@, query.category, corpus@, limit as nat);
        }
    }
    SearchResult { items }
}

} // verus!
