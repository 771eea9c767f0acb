//! Selection, ordering and paging behind `GET /api/rankings`.
//!
//! Scores are computed by the caller; this module decides which websites or
//! models take part, in which order they are listed, which rank each one gets
//! and which of them fall on the requested page.
use vstd::prelude::*;
use crate::json::{parse_string_array, spec_parse_string_array, views};
use crate::error::ApiError;
use crate::models::{ModelRow, RankingsQuery, UserRow, WebsiteRow};
use crate::text::{chars_of, contains_chars, seq_contains, spec_to_lowercase, to_lowercase};

verus! {

/// `a` is listed before `b`: a higher score first, and among equal scores the
/// one that came first keeps its place.
pub open spec fn ranks_before(keys: Seq<u64>, a: int, b: int) -> bool {
    keys[a] > keys[b] || (keys[a] == keys[b] && a < b)
}

/// `order` lists every index of `keys` once, best score first, ties kept in
/// the order they were given in.
pub open spec fn is_ranking_order(keys: Seq<u64>, order: Seq<usize>) -> bool {
    &&& order.len() == keys.len()
    &&& forall|i: int| 0 <= i < order.len() ==> order[i] < keys.len()
    &&& forall|i: int, j: int|
        0 <= i < j < order.len() ==> ranks_before(keys, order[i] as int, order[j] as int)
}

/// Orders the entries by descending score key; equal keys keep their input
/// order (a stable sort).
pub fn ranking_order(keys: &Vec<u64>) -> (order: Vec<usize>)
    ensures
        is_ranking_order(keys@, order@),
        order.len() == keys.len(),
        forall|i: int, j: int|
            0 <= i < j < order.len() ==> keys@[order@[i] as int] >= keys@[order@[j] as int] && (
            keys@[order@[i] as int] == keys@[order@[j] as int] ==> order@[i] < order@[j]),
        forall|e: usize| e < keys.len() ==> #[trigger] order@.contains(e),
{
    let n = keys.len();
    let mut order: Vec<usize> = Vec::new();
    let mut i: usize = 0;
    while i < n
        invariant
            n == keys.len(),
            i <= n,
            order.len() == i,
            forall|a: int| 0 <= a < order.len() ==> order@[a] < i,
            forall|a: int, b: int|
                0 <= a < b < order.len() ==> ranks_before(keys@, order@[a] as int, order@[b] as int),
        decreases n - i,
    {
        let mut p: usize = 0;
        while p < order.len() && keys[order[p]] >= keys[i]
            invariant
                n == keys.len(),
                i < n,
                order.len() == i,
                p <= order.len(),
                forall|a: int| 0 <= a < order.len() ==> order@[a] < i,
                forall|a: int| 0 <= a < p ==> keys@[order@[a] as int] >= keys@[i as int],
            decreases order.len() - p,
        {
            p = p + 1;
        }
        proof {
            assert forall|a: int| p <= a < order.len() implies keys@[order@[a] as int]
                < keys@[i as int] by {
                if a > p {
                    assert(ranks_before(keys@, order@[p as int] as int, order@[a] as int));
                }
            }
        }
        let ghost prev = order@;
        order.insert(p, i);
        proof {
            assert forall|a: int, b: int| 0 <= a < b < order.len() implies ranks_before(
                keys@,
                order@[a] as int,
                order@[b] as int,
            ) by {
                if b < p {
                    assert(order@[a] == prev[a] && order@[b] == prev[b]);
                } else if b == p {
                    assert(order@[a] == prev[a]);
                } else if a < p {
                    assert(order@[a] == prev[a] && order@[b] == prev[b - 1]);
                } else if a == p {
                    assert(order@[b] == prev[b - 1]);
                } else {
                    assert(order@[a] == prev[a - 1] && order@[b] == prev[b - 1]);
                }
            }
            assert forall|a: int| 0 <= a < order.len() implies order@[a] < i + 1 by {
                if a < p {
                    assert(order@[a] == prev[a]);
                } else if a > p {
                    assert(order@[a] == prev[a - 1]);
                }
            }
        }
        i = i + 1;
    }
    proof {
        ranking_order_is_permutation(keys@, order@);
        assert forall|i: int, j: int| 0 <= i < j < order.len() implies keys@[order@[i] as int]
            >= keys@[order@[j] as int] && (keys@[order@[i] as int] == keys@[order@[j] as int]
            ==> order@[i] < order@[j]) by {
            assert(ranks_before(keys@, order@[i] as int, order@[j] as int));
        }
    }
    order
}


/// A ranking order lists every entry exactly once.
pub proof fn ranking_order_is_permutation(keys: Seq<u64>, order: Seq<usize>)
    requires
        is_ranking_order(keys, order),
    ensures
        forall|a: int, b: int| 0 <= a < b < order.len() ==> order[a] != order[b],
        forall|e: usize| e < keys.len() ==> #[trigger] order.contains(e),
{
    broadcast use vstd::seq_lib::group_seq_properties;

    assert forall|a: int, b: int| 0 <= a < b < order.len() implies order[a] != order[b] by {
        assert(ranks_before(keys, order[a] as int, order[b] as int));
    }
    let n = keys.len() as int;
    let vals = order.map_values(|v: usize| v as int);
    assert(vals.no_duplicates()) by {
        assert forall|a: int, b: int| 0 <= a < vals.len() && 0 <= b < vals.len() && a != b implies vals[a]
            != vals[b] by {
            if a < b {
                assert(ranks_before(keys, order[a] as int, order[b] as int));
            } else {
                assert(ranks_before(keys, order[b] as int, order[a] as int));
            }
        }
    }
    vals.unique_seq_to_set();
    let range = vstd::set_lib::set_int_range(0, n);
    vstd::set_lib::lemma_int_range(0, n);
    assert(vals.to_set().subset_of(range)) by {
        assert forall|x: int| vals.to_set().contains(x) implies range.contains(x) by {
            let k = choose|k: int| 0 <= k < vals.len() && vals[k] == x;
            assert(order[k] < keys.len());
        }
    }
    vstd::set_lib::lemma_subset_equality(vals.to_set(), range);
    assert forall|e: usize| e < keys.len() implies #[trigger] order.contains(e) by {
        assert(range.contains(e as int));
        assert(vals.to_set().contains(e as int));
        let k = choose|k: int| 0 <= k < vals.len() && vals[k] == e as int;
        assert(order[k] == e);
    }
}

proof fn lemma_sorted_same_elements_equal(keys: Seq<u64>, s1: Seq<usize>, s2: Seq<usize>)
    requires
        s1.len() == s2.len(),
        forall|i: int, j: int|
            0 <= i < j < s1.len() ==> ranks_before(keys, s1[i] as int, s1[j] as int),
        forall|i: int, j: int|
            0 <= i < j < s2.len() ==> ranks_before(keys, s2[i] as int, s2[j] as int),
        forall|x: usize| s1.contains(x) <==> s2.contains(x),
    ensures
        s1 == s2,
    decreases s1.len(),
{
    if s1.len() > 0 {
        let a = s1[0];
        let b = s2[0];
        assert(s2.contains(a) && s1.contains(b)) by {
            assert(s1.contains(s1[0]));
            assert(s2.contains(s2[0]));
        }
        let ka = choose|k: int| 0 <= k < s2.len() && s2[k] == a;
        let kb = choose|k: int| 0 <= k < s1.len() && s1[k] == b;
        if a != b {
            assert(ranks_before(keys, b as int, a as int));
            assert(ranks_before(keys, a as int, b as int));
        }
        let t1 = s1.drop_first();
        let t2 = s2.drop_first();
        assert forall|x: usize| t1.contains(x) <==> t2.contains(x) by {
            if t1.contains(x) {
                let k = choose|k: int| 0 <= k < t1.len() && t1[k] == x;
                assert(s1[k + 1] == x);
                assert(ranks_before(keys, s1[0] as int, s1[k + 1] as int));
                assert(s2.contains(x));
                let k2 = choose|k2: int| 0 <= k2 < s2.len() && s2[k2] == x;
                assert(k2 != 0);
                assert(t2[k2 - 1] == x);
            }
            if t2.contains(x) {
                let k = choose|k: int| 0 <= k < t2.len() && t2[k] == x;
                assert(s2[k + 1] == x);
                assert(ranks_before(keys, s2[0] as int, s2[k + 1] as int));
                assert(s1.contains(x));
                let k1 = choose|k1: int| 0 <= k1 < s1.len() && s1[k1] == x;
                assert(k1 != 0);
                assert(t1[k1 - 1] == x);
            }
        }
        lemma_sorted_same_elements_equal(keys, t1, t2);
        assert(s1 =~= seq![a] + t1);
        assert(s2 =~= seq![b] + t2);
    }
}

/// The ranking order is determined by the scores: any two orders that meet
/// `is_ranking_order` for the same keys are the same order.
pub proof fn ranking_order_is_unique(keys: Seq<u64>, o1: Seq<usize>, o2: Seq<usize>)
    requires
        is_ranking_order(keys, o1),
        is_ranking_order(keys, o2),
    ensures
        o1 == o2,
{
    ranking_order_is_permutation(keys, o1);
    ranking_order_is_permutation(keys, o2);
    assert forall|x: usize| o1.contains(x) <==> o2.contains(x) by {
        if o1.contains(x) {
            let k = choose|k: int| 0 <= k < o1.len() && o1[k] == x;
            assert(o1[k] < keys.len());
        }
        if o2.contains(x) {
            let k = choose|k: int| 0 <= k < o2.len() && o2[k] == x;
            assert(o2[k] < keys.len());
        }
    }
    lemma_sorted_same_elements_equal(keys, o1, o2);
}

/// Which answer `GET /api/rankings` gives.
pub enum RankingsMode {
    WebsiteDetail(String),
    ModelDetail(String),
    ModelRankings,
    WebsiteRankings,
}

/// A website id selects the website's detail; else a model id selects the
/// model's detail; else `ranking_type=model` selects the model ranking; else
/// the website ranking is listed.
pub fn rankings(query: &RankingsQuery) -> (m: RankingsMode)
    ensures
        match query.website_id {
            Some(w) => m == RankingsMode::WebsiteDetail(w),
            None => match query.model_id {
                Some(id) => m == RankingsMode::ModelDetail(id),
                None => m == (if query.ranking_type matches Some(t) && t@ == "model"@ {
                    RankingsMode::ModelRankings
                } else {
                    RankingsMode::WebsiteRankings
                }),
            },
        },
{
    match &query.website_id {
        Some(w) => RankingsMode::WebsiteDetail(w.clone()),
        None => match &query.model_id {
            Some(id) => RankingsMode::ModelDetail(id.clone()),
            None => match &query.ranking_type {
                Some(t) => {
                    let model = String::from_str("model");
                    if *t == model {
                        RankingsMode::ModelRankings
                    } else {
                        RankingsMode::WebsiteRankings
                    }
                },
                None => RankingsMode::WebsiteRankings,
            },
        },
    }
}

/// The number of entries a listing shows when none is asked for.
pub const DEFAULT_PAGE_LIMIT: u32 = 50;

/// The most entries a listing shows, whatever is asked for.
pub const MAX_PAGE_LIMIT: u32 = 100;

/// `(limit, offset)` of a listing: the asked limit (50 if none) capped at 100,
/// and the asked offset (0 if none).
pub fn page_window(query: &RankingsQuery) -> (w: (u32, u32))
    ensures
        w.0 == (match query.limit {
            Some(l) => if l < MAX_PAGE_LIMIT {
                l
            } else {
                MAX_PAGE_LIMIT
            },
            None => DEFAULT_PAGE_LIMIT,
        }),
        w.1 == (match query.offset {
            Some(o) => o,
            None => 0u32,
        }),
        w.0 <= 100,
        query.limit is None ==> w.0 == 50,
{
    let limit = match query.limit {
        Some(l) => l,
        None => DEFAULT_PAGE_LIMIT,
    };
    let limit = if limit < MAX_PAGE_LIMIT {
        limit
    } else {
        MAX_PAGE_LIMIT
    };
    let offset = match query.offset {
        Some(o) => o,
        None => 0,
    };
    (limit, offset)
}

/// One listed entry of a page: the entry's index and its rank number.
pub struct RankSlot {
    pub entry: usize,
    pub rank: u32,
}

/// A ranked listing: the full order, the entries on the requested page and
/// the number of entries in all.
pub struct RankedPage {
    pub order: Vec<usize>,
    pub slots: Vec<RankSlot>,
    pub total: u32,
}

/// How many entries a page holds: those from `offset` on, at most `limit`.
pub open spec fn page_size(total: int, offset: int, limit: int) -> int {
    if offset >= total {
        0
    } else if total - offset < limit {
        total - offset
    } else {
        limit
    }
}

/// A page holds `min(limit, max(0, total - offset))` entries: never more than
/// `limit`, never past the end of the listing, and all of the rest of the
/// listing when it fits.
pub proof fn page_size_is_min(total: int, offset: int, limit: int)
    requires
        0 <= offset,
        0 <= limit,
    ensures
        page_size(total, offset, limit) == vstd::math::min(
            limit,
            vstd::math::max(0, total - offset),
        ),
        page_size(total, offset, limit) <= limit,
        offset + page_size(total, offset, limit) <= total || page_size(total, offset, limit) == 0,
{
}

/// The rank number of the entry at `position` of the full order: its place in
/// the whole ranking, counted from 1 (kept to 32 bits).
pub open spec fn rank_of_position(position: int) -> int {
    (position + 1) % 0x1_0000_0000
}

/// Orders the entries by descending score key (stably), numbers them by their
/// place in the whole ranking (the best is 1) and cuts out the page that
/// starts at `offset` and holds at most `limit` entries: the `k`-th entry of
/// the page has rank `offset + k + 1`.
pub fn rank_page(keys: &Vec<u64>, offset: u32, limit: u32) -> (p: RankedPage)
    ensures
        is_ranking_order(keys@, p.order@),
        p.total == (keys.len() as int) % 0x1_0000_0000,
        p.slots.len() == page_size(keys.len() as int, offset as int, limit as int),
        p.slots.len() <= limit,
        offset + p.slots.len() <= keys.len() || p.slots.len() == 0,
        forall|k: int|
            0 <= k < p.slots.len() ==> p.slots[k].entry == p.order[offset + k]
                && p.slots[k].rank == rank_of_position(offset + k),
        forall|k: int|
            0 <= k < p.slots.len() ==> #[trigger] p.slots[k].rank == (offset + k + 1)
                % 0x1_0000_0000,
        forall|i: int, j: int|
            0 <= i < j < p.order.len() ==> keys@[p.order@[i] as int] >= keys@[p.order@[j] as int]
                && (keys@[p.order@[i] as int] == keys@[p.order@[j] as int] ==> p.order@[i]
                < p.order@[j]),
{
    proof {
        page_size_is_min(keys.len() as int, offset as int, limit as int);
    }
    let order = ranking_order(keys);
    let n = order.len();
    let total = (n as u64 % 0x1_0000_0000) as u32;
    let mut slots: Vec<RankSlot> = Vec::new();
    let mut pos: usize = offset as usize;
    while pos < n && slots.len() < limit as usize
        invariant
            n == order.len(),
            n == keys.len(),
            offset <= pos,
            pos == offset + slots.len(),
            slots.len() <= limit,
            pos <= n || slots.len() == 0,
            forall|k: int|
                0 <= k < slots.len() ==> slots@[k].entry == order@[offset + k]
                    && slots@[k].rank == rank_of_position(offset + k),
        decreases n - pos,
    {
        let rank = ((pos as u64 + 1) % 0x1_0000_0000) as u32;
        slots.push(RankSlot { entry: order[pos], rank });
        pos = pos + 1;
    }
    RankedPage { order, slots, total }
}

/// A website or model that may take part in a ranking, with the texts a
/// search is matched against.
pub struct RankSubject {
    pub id: String,
    pub name: String,
    pub search_text: String,
}

/// A subject that takes part in a ranking, with the indices of its
/// submissions.
pub struct RankGroup {
    pub subject: usize,
    pub members: Vec<usize>,
}

impl View for RankGroup {
    type V = (usize, Seq<usize>);

    open spec fn view(&self) -> (usize, Seq<usize>) {
        (self.subject, self.members@)
    }
}

/// Indices (below `upto`, ascending) of the items that belong to `id`.
pub open spec fn members_of(items: Seq<String>, id: Seq<char>, upto: int) -> Seq<usize>
    decreases upto,
{
    if upto <= 0 {
        seq![]
    } else {
        let rest = members_of(items, id, upto - 1);
        if items[upto - 1]@ == id {
            rest.push((upto - 1) as usize)
        } else {
            rest
        }
    }
}

/// The characters of an optional string.
pub open spec fn opt_view(o: Option<String>) -> Option<Seq<char>> {
    match o {
        Some(s) => Some(s@),
        None => None,
    }
}

/// A subject passes the search when there is none, or when the lower-cased
/// search occurs in its lower-cased name or search text.
pub open spec fn search_hit(name: Seq<char>, text: Seq<char>, search: Option<Seq<char>>) -> bool {
    match search {
        None => true,
        Some(q) => seq_contains(spec_to_lowercase(name), spec_to_lowercase(q)) || seq_contains(
            spec_to_lowercase(text),
            spec_to_lowercase(q),
        ),
    }
}

/// The subjects (below `upto`, in order) that pass the search and have at least
/// one submission, each with its submissions.
pub open spec fn rank_groups(
    subjects: Seq<RankSubject>,
    items: Seq<String>,
    search: Option<Seq<char>>,
    upto: int,
) -> Seq<(usize, Seq<usize>)>
    decreases upto,
{
    if upto <= 0 {
        seq![]
    } else {
        let rest = rank_groups(subjects, items, search, upto - 1);
        let s = subjects[upto - 1];
        let m = members_of(items, s.id@, items.len() as int);
        if search_hit(s.name@, s.search_text@, search) && m.len() > 0 {
            rest.push(((upto - 1) as usize, m))
        } else {
            rest
        }
    }
}

/// Subject `j` takes part in a ranking: it passes the search and has at least
/// one submission.
pub open spec fn takes_part(
    subjects: Seq<RankSubject>,
    items: Seq<String>,
    search: Option<Seq<char>>,
    j: int,
) -> bool {
    search_hit(subjects[j].name@, subjects[j].search_text@, search) && members_of(
        items,
        subjects[j].id@,
        items.len() as int,
    ).len() > 0
}

/// The search matches a subject exactly when there is no search, or when the
/// lower-cased search occurs anywhere in the lower-cased name or anywhere in
/// the lower-cased search text.
pub proof fn search_is_case_insensitive_substring(
    name: Seq<char>,
    text: Seq<char>,
    search: Option<Seq<char>>,
)
    ensures
        search is None ==> search_hit(name, text, search),
        search matches Some(q) ==> (search_hit(name, text, search) <==> (exists|i: int|
            0 <= i && i + spec_to_lowercase(q).len() <= spec_to_lowercase(name).len()
                && #[trigger] spec_to_lowercase(name).subrange(i, i + spec_to_lowercase(q).len())
                == spec_to_lowercase(q)) || (exists|i: int|
            0 <= i && i + spec_to_lowercase(q).len() <= spec_to_lowercase(text).len()
                && #[trigger] spec_to_lowercase(text).subrange(i, i + spec_to_lowercase(q).len())
                == spec_to_lowercase(q))),
{
}

/// A subject with at least one submission whose lower-cased name or search
/// text holds the lower-cased search anywhere takes part in the ranking.
pub proof fn matching_subject_takes_part(
    subjects: Seq<RankSubject>,
    items: Seq<String>,
    q: Seq<char>,
    j: usize,
    i: int,
)
    requires
        subjects.len() <= usize::MAX,
        j < subjects.len(),
        members_of(items, subjects[j as int].id@, items.len() as int).len() > 0,
        0 <= i,
        ({
            let needle = spec_to_lowercase(q);
            let hay = spec_to_lowercase(subjects[j as int].name@);
            i + needle.len() <= hay.len() && hay.subrange(i, i + needle.len()) == needle
        }) || ({
            let needle = spec_to_lowercase(q);
            let hay = spec_to_lowercase(subjects[j as int].search_text@);
            i + needle.len() <= hay.len() && hay.subrange(i, i + needle.len()) == needle
        }),
    ensures
        exists|k: int|
            0 <= k < rank_groups(subjects, items, Some(q), subjects.len() as int).len() && rank_groups(
                subjects,
                items,
                Some(q),
                subjects.len() as int,
            )[k].0 == j,
{
    search_is_case_insensitive_substring(subjects[j as int].name@, subjects[j as int].search_text@, Some(q));
    assert(takes_part(subjects, items, Some(q), j as int));
    rank_groups_are_exact(subjects, items, Some(q), subjects.len() as int);
}

/// The submissions of a subject are exactly the indices whose subject id is
/// the subject's, in ascending order.
pub proof fn members_are_exact(items: Seq<String>, id: Seq<char>, upto: int)
    requires
        0 <= upto <= items.len(),
        items.len() <= usize::MAX,
    ensures
        forall|k: int|
            #![trigger members_of(items, id, upto)[k]]
            0 <= k < members_of(items, id, upto).len() ==> members_of(items, id, upto)[k] < upto
                && items[members_of(items, id, upto)[k] as int]@ == id,
        forall|i: usize| i < upto && items[i as int]@ == id ==> #[trigger] members_of(
            items,
            id,
            upto,
        ).contains(i),
        forall|a: int, b: int|
            0 <= a < b < members_of(items, id, upto).len() ==> members_of(items, id, upto)[a]
                < members_of(items, id, upto)[b],
    decreases upto,
{
    if upto > 0 {
        members_are_exact(items, id, upto - 1);
        let rest = members_of(items, id, upto - 1);
        if items[upto - 1]@ == id {
            assert(members_of(items, id, upto) == rest.push((upto - 1) as usize));
            assert forall|i: usize| i < upto && items[i as int]@ == id implies #[trigger] members_of(
                items,
                id,
                upto,
            ).contains(i) by {
                if i < upto - 1 {
                    assert(rest.contains(i));
                    let k = choose|k: int| 0 <= k < rest.len() && rest[k] == i;
                    assert(members_of(items, id, upto)[k] == i);
                } else {
                    assert(members_of(items, id, upto)[rest.len() as int] == i);
                }
            }
        }
    }
}

/// The subjects of a ranking are exactly those that take part, each once, in
/// their given order, each with all of its submissions.
pub proof fn rank_groups_are_exact(
    subjects: Seq<RankSubject>,
    items: Seq<String>,
    search: Option<Seq<char>>,
    upto: int,
)
    requires
        0 <= upto <= subjects.len(),
        subjects.len() <= usize::MAX,
    ensures
        forall|k: int|
            #![trigger rank_groups(subjects, items, search, upto)[k]]
            0 <= k < rank_groups(subjects, items, search, upto).len() ==> {
                let g = rank_groups(subjects, items, search, upto)[k];
                &&& g.0 < upto
                &&& takes_part(subjects, items, search, g.0 as int)
                &&& g.1 == members_of(items, subjects[g.0 as int].id@, items.len() as int)
            },
        forall|j: usize|
            j < upto && #[trigger] takes_part(subjects, items, search, j as int) ==> exists|k: int|
                0 <= k < rank_groups(subjects, items, search, upto).len() && rank_groups(
                    subjects,
                    items,
                    search,
                    upto,
                )[k].0 == j,
        forall|a: int, b: int|
            0 <= a < b < rank_groups(subjects, items, search, upto).len() ==> rank_groups(
                subjects,
                items,
                search,
                upto,
            )[a].0 < rank_groups(subjects, items, search, upto)[b].0,
    decreases upto,
{
    if upto > 0 {
        rank_groups_are_exact(subjects, items, search, upto - 1);
        let rest = rank_groups(subjects, items, search, upto - 1);
        let all = rank_groups(subjects, items, search, upto);
        if takes_part(subjects, items, search, upto - 1) {
            assert(all == rest.push(
                ((upto - 1) as usize, members_of(items, subjects[upto - 1].id@, items.len() as int)),
            ));
            assert forall|j: usize|
                j < upto && #[trigger] takes_part(subjects, items, search, j as int) implies exists|
                k: int,
            | 0 <= k < all.len() && all[k].0 == j by {
                if j < upto - 1 {
                    let k = choose|k: int| 0 <= k < rest.len() && rest[k].0 == j;
                    assert(all[k] == rest[k]);
                } else {
                    assert(all[rest.len() as int].0 == j);
                }
            }
        } else {
            assert(all == rest);
        }
    }
}

/// The indices of the items that belong to `id`, in order.
pub fn members(items: &Vec<String>, id: &String) -> (m: Vec<usize>)
    ensures
        m@ == members_of(items@, id@, items.len() as int),
{
    let mut m: Vec<usize> = Vec::new();
    let mut i: usize = 0;
    while i < items.len()
        invariant
            i <= items.len(),
            m@ == members_of(items@, id@, i as int),
        decreases items.len() - i,
    {
        if items[i] == *id {
            m.push(i);
        }
        i = i + 1;
    }
    m
}

/// The lower-cased characters of a search, if there is one.
fn lowered_search(search: &Option<String>) -> (r: Option<Vec<char>>)
    ensures
        match search {
            Some(q) => r matches Some(v) && v@ == spec_to_lowercase(q@),
            None => r is None,
        },
{
    match search {
        Some(q) => {
            let lower = to_lowercase(q.as_str());
            Some(chars_of(lower.as_str()))
        },
        None => None,
    }
}

/// Whether a subject passes the (already lower-cased) search.
fn passes_search(name: &String, text: &String, needle: &Option<Vec<char>>) -> (r: bool)
    ensures
        r == match needle {
            None => true,
            Some(q) => seq_contains(spec_to_lowercase(name@), q@) || seq_contains(
                spec_to_lowercase(text@),
                q@,
            ),
        },
{
    match needle {
        None => true,
        Some(q) => {
            let name_lower = chars_of(to_lowercase(name.as_str()).as_str());
            if contains_chars(&name_lower, q) {
                true
            } else {
                let text_lower = chars_of(to_lowercase(text.as_str()).as_str());
                contains_chars(&text_lower, q)
            }
        },
    }
}

/// The subjects that take part in a ranking: in their given order, those that
/// pass the search and have at least one submission, each with the indices of
/// its submissions (`item_subjects[i]` is the subject id of submission `i`).
pub fn rank_candidates(
    subjects: &Vec<RankSubject>,
    item_subjects: &Vec<String>,
    search: &Option<String>,
) -> (r: Vec<RankGroup>)
    ensures
        r@.map_values(|g: RankGroup| g@) == rank_groups(
            subjects@,
            item_subjects@,
            opt_view(*search),
            subjects.len() as int,
        ),
{
    let needle = lowered_search(search);
    let mut r: Vec<RankGroup> = Vec::new();
    let mut j: usize = 0;
    while j < subjects.len()
        invariant
            j <= subjects.len(),
            match search {
                Some(q) => needle matches Some(v) && v@ == spec_to_lowercase(q@),
                None => needle is None,
            },
            r@.map_values(|g: RankGroup| g@) == rank_groups(
                subjects@,
                item_subjects@,
                opt_view(*search),
                j as int,
            ),
        decreases subjects.len() - j,
    {
        let subject = &subjects[j];
        let hit = passes_search(&subject.name, &subject.search_text, &needle);
        if hit {
            let m = members(item_subjects, &subject.id);
            if m.len() > 0 {
                let ghost before = r@;
                r.push(RankGroup { subject: j, members: m });
                assert(r@.map_values(|g: RankGroup| g@) =~= before.map_values(|g: RankGroup| g@).push(
                    (j, m@),
                ));
            }
        }
        j = j + 1;
    }
    r
}


/// Whether `v` holds a string equal to `s`.
fn holds_string(v: &Vec<String>, s: &String) -> (r: bool)
    ensures
        r == views(v@).contains(s@),
{
    let mut i: usize = 0;
    while i < v.len()
        invariant
            i <= v.len(),
            forall|k: int| 0 <= k < i ==> v@[k]@ != s@,
        decreases v.len() - i,
    {
        if v[i] == *s {
            assert(views(v@)[i as int] == s@);
            return true;
        }
        i = i + 1;
    }
    assert(!views(v@).contains(s@)) by {
        assert forall|k: int| 0 <= k < views(v@).len() implies views(v@)[k] != s@ by {
            assert(views(v@)[k] == v@[k]@);
        }
    }
    false
}

/// The number of different strings in `ids` (how many websites a model was
/// tested on).
pub fn distinct_count(ids: &Vec<String>) -> (n: usize)
    ensures
        n == views(ids@).to_set().len(),
{
    broadcast use vstd::seq_lib::group_seq_properties;

    let mut seen: Vec<String> = Vec::new();
    let mut i: usize = 0;
    while i < ids.len()
        invariant
            i <= ids.len(),
            views(seen@).no_duplicates(),
            views(seen@).to_set() == views(ids@.take(i as int)).to_set(),
            seen.len() <= i,
        decreases ids.len() - i,
    {
        let ghost prev = seen@;
        assert(ids@.take(i + 1) == ids@.take(i as int).push(ids@[i as int]));
        assert(views(ids@.take(i + 1)) == views(ids@.take(i as int)).push(ids@[i as int]@));
        proof {
            views(ids@.take(i as int)).lemma_push_to_set_commute(ids@[i as int]@);
        }
        if !holds_string(&seen, &ids[i]) {
            seen.push(ids[i].clone());
            assert(views(seen@) == views(prev).push(ids@[i as int]@));
            proof {
                views(prev).lemma_push_to_set_commute(ids@[i as int]@);
                assert forall|a: int, b: int|
                    0 <= a < b < views(seen@).len() implies views(seen@)[a] != views(seen@)[b] by {
                    if b == views(prev).len() {
                        assert(views(prev).contains(views(prev)[a]));
                    }
                }
            }
        } else {
            assert(views(ids@.take(i as int)).to_set().contains(ids@[i as int]@));
            assert(views(ids@.take(i as int)).to_set().insert(ids@[i as int]@) == views(
                ids@.take(i as int),
            ).to_set());
        }
        i = i + 1;
    }
    proof {
        views(seen@).unique_seq_to_set();
        assert(ids@.take(ids.len() as int) == ids@);
    }
    seen.len()
}

/// `a` comes no later than `b` in character order (as `String`'s `Ord` does:
/// byte order of UTF-8 is code point order).
pub open spec fn lex_le(a: Seq<char>, b: Seq<char>) -> bool
    decreases a.len(),
{
    if a.len() == 0 {
        true
    } else if b.len() == 0 {
        false
    } else if a[0] != b[0] {
        (a[0] as int) < (b[0] as int)
    } else {
        lex_le(a.drop_first(), b.drop_first())
    }
}

/// The greatest of the strings, the empty string when there is none.
pub open spec fn latest_of(s: Seq<Seq<char>>) -> Seq<char>
    decreases s.len(),
{
    if s.len() == 0 {
        seq![]
    } else {
        let rest = latest_of(s.drop_last());
        if lex_le(rest, s.last()) {
            s.last()
        } else {
            rest
        }
    }
}

proof fn lemma_lex_le_reflexive(a: Seq<char>)
    ensures
        lex_le(a, a),
    decreases a.len(),
{
    if a.len() > 0 {
        lemma_lex_le_reflexive(a.drop_first());
    }
}

proof fn lemma_lex_le_total(a: Seq<char>, b: Seq<char>)
    ensures
        lex_le(a, b) || lex_le(b, a),
    decreases a.len(),
{
    if a.len() > 0 && b.len() > 0 {
        if a[0] == b[0] {
            lemma_lex_le_total(a.drop_first(), b.drop_first());
        } else {
            assert((a[0] as int) != (b[0] as int));
        }
    }
}

proof fn lemma_lex_le_transitive(a: Seq<char>, b: Seq<char>, c: Seq<char>)
    requires
        lex_le(a, b),
        lex_le(b, c),
    ensures
        lex_le(a, c),
    decreases a.len(),
{
    if a.len() > 0 && b.len() > 0 && c.len() > 0 && a[0] == b[0] && b[0] == c[0] {
        lemma_lex_le_transitive(a.drop_first(), b.drop_first(), c.drop_first());
    }
}

/// `a` comes no later than `b` exactly when `a` is a prefix of `b`, or at the
/// first place where they differ `a` holds the smaller character (code point
/// order, which is the byte order of UTF-8 and so the order of `String`).
pub proof fn lex_le_is_string_order(a: Seq<char>, b: Seq<char>)
    ensures
        lex_le(a, b) <==> (a.len() <= b.len() && b.take(a.len() as int) == a) || (exists|i: int|
            0 <= i < a.len() && i < b.len() && a.take(i) == b.take(i) && (#[trigger] a[i] as int)
                < (b[i] as int)),
    decreases a.len(),
{
    if a.len() == 0 {
        assert(b.take(0) =~= a);
    } else if b.len() == 0 {
        assert(!(exists|i: int|
            0 <= i < a.len() && i < b.len() && a.take(i) == b.take(i) && (#[trigger] a[i] as int)
                < (b[i] as int)));
    } else if a[0] != b[0] {
        if (a[0] as int) < (b[0] as int) {
            assert(a.take(0) =~= b.take(0));
        } else {
            assert((a[0] as int) != (b[0] as int));
            assert(!(exists|i: int|
                0 <= i < a.len() && i < b.len() && a.take(i) == b.take(i) && (#[trigger] a[i] as int)
                    < (b[i] as int))) by {
                assert forall|i: int|
                    0 <= i < a.len() && i < b.len() && a.take(i) == b.take(i) implies !((
                    #[trigger] a[i] as int) < (b[i] as int)) by {
                    if i > 0 {
                        assert(a.take(i)[0] == b.take(i)[0]);
                    }
                }
            }
            if a.len() <= b.len() && b.take(a.len() as int) == a {
                assert(b.take(a.len() as int)[0] == a[0]);
            }
        }
    } else {
        let a1 = a.drop_first();
        let b1 = b.drop_first();
        lex_le_is_string_order(a1, b1);
        // Prefix of the tails is prefix of the whole.
        if a.len() <= b.len() {
            if b.take(a.len() as int) == a {
                assert(b1.take(a1.len() as int) =~= a1);
            }
            if b1.take(a1.len() as int) == a1 {
                assert forall|k: int| 0 <= k < a.len() implies #[trigger] b.take(a.len() as int)[k]
                    == a[k] by {
                    if k > 0 {
                        assert(b1.take(a1.len() as int)[k - 1] == a1[k - 1]);
                    }
                }
                assert(b.take(a.len() as int) =~= a);
            }
        }
        if exists|i: int|
            0 <= i < a1.len() && i < b1.len() && a1.take(i) == b1.take(i) && (#[trigger] a1[i] as int)
                < (b1[i] as int) {
            let i = choose|i: int|
                0 <= i < a1.len() && i < b1.len() && a1.take(i) == b1.take(i) && (
                #[trigger] a1[i] as int) < (b1[i] as int);
            assert(a.take(i + 1) =~= seq![a[0]] + a1.take(i));
            assert(b.take(i + 1) =~= seq![b[0]] + b1.take(i));
            assert(a[i + 1] == a1[i]);
        }
        if exists|i: int|
            0 <= i < a.len() && i < b.len() && a.take(i) == b.take(i) && (#[trigger] a[i] as int)
                < (b[i] as int) {
            let i = choose|i: int|
                0 <= i < a.len() && i < b.len() && a.take(i) == b.take(i) && (#[trigger] a[i] as int)
                    < (b[i] as int);
            assert(i != 0);
            assert(a1.take(i - 1) =~= a.take(i).drop_first());
            assert(b1.take(i - 1) =~= b.take(i).drop_first());
            assert(a1[i - 1] == a[i]);
        }
    }
}

/// Two strings that each come no later than the other are the same string.
pub proof fn lex_le_antisymmetric(a: Seq<char>, b: Seq<char>)
    requires
        lex_le(a, b),
        lex_le(b, a),
    ensures
        a == b,
    decreases a.len(),
{
    if a.len() > 0 && b.len() > 0 {
        assert((a[0] as int) != (b[0] as int) ==> a[0] != b[0]);
        lex_le_antisymmetric(a.drop_first(), b.drop_first());
        assert(a =~= seq![a[0]] + a.drop_first());
        assert(b =~= seq![b[0]] + b.drop_first());
    } else {
        assert(a =~= b);
    }
}

/// The latest timestamp of a non-empty list is its one greatest element in
/// string order: any element that no other element comes after is it.
pub proof fn latest_is_the_maximum(s: Seq<Seq<char>>, x: Seq<char>)
    requires
        s.len() > 0,
        s.contains(x),
        forall|i: int| 0 <= i < s.len() ==> lex_le(#[trigger] s[i], x),
    ensures
        latest_of(s) == x,
{
    latest_is_greatest(s);
    let k = choose|k: int| 0 <= k < s.len() && s[k] == latest_of(s);
    assert(lex_le(s[k], x));
    let j = choose|j: int| 0 <= j < s.len() && s[j] == x;
    assert(lex_le(s[j], latest_of(s)));
    lex_le_antisymmetric(latest_of(s), x);
}

/// The latest timestamp of a non-empty list is one of them, and no other comes
/// after it.
pub proof fn latest_is_greatest(s: Seq<Seq<char>>)
    requires
        s.len() > 0,
    ensures
        s.contains(latest_of(s)),
        forall|i: int| 0 <= i < s.len() ==> lex_le(#[trigger] s[i], latest_of(s)),
    decreases s.len(),
{
    let init = s.drop_last();
    let last = s.last();
    if init.len() == 0 {
        assert(latest_of(init) == Seq::<char>::empty());
        assert(lex_le(latest_of(init), last));
        lemma_lex_le_reflexive(last);
        assert(s[0] == last);
    } else {
        latest_is_greatest(init);
        let rest = latest_of(init);
        lemma_lex_le_total(rest, last);
        if lex_le(rest, last) {
            lemma_lex_le_reflexive(last);
            assert forall|i: int| 0 <= i < s.len() implies lex_le(#[trigger] s[i], latest_of(s)) by {
                if i < s.len() - 1 {
                    assert(s[i] == init[i]);
                    lemma_lex_le_transitive(s[i], rest, last);
                }
            }
            assert(s[s.len() - 1] == last);
        } else {
            lemma_lex_le_reflexive(rest);
            assert forall|i: int| 0 <= i < s.len() implies lex_le(#[trigger] s[i], latest_of(s)) by {
                if i < s.len() - 1 {
                    assert(s[i] == init[i]);
                }
            }
            let k = choose|k: int| 0 <= k < init.len() && init[k] == rest;
            assert(s[k] == rest);
        }
    }
}

fn lex_le_chars(a: &Vec<char>, b: &Vec<char>) -> (r: bool)
    ensures
        r == lex_le(a@, b@),
{
    let mut i: usize = 0;
    assert(a@.skip(0) == a@ && b@.skip(0) == b@);
    while i < a.len() && i < b.len() && a[i] == b[i]
        invariant
            i <= a.len(),
            i <= b.len(),
            lex_le(a@, b@) == lex_le(a@.skip(i as int), b@.skip(i as int)),
        decreases a.len() - i,
    {
        assert(a@.skip(i as int).drop_first() == a@.skip(i + 1));
        assert(b@.skip(i as int).drop_first() == b@.skip(i + 1));
        i = i + 1;
    }
    if i == a.len() {
        true
    } else if i == b.len() {
        false
    } else {
        a[i] < b[i]
    }
}

/// The latest of the timestamps (the greatest string), the empty string when
/// there is none.
pub fn latest_timestamp(stamps: &Vec<String>) -> (r: String)
    ensures
        r@ == latest_of(views(stamps@)),
{
    let mut best = String::new();
    let mut i: usize = 0;
    while i < stamps.len()
        invariant
            i <= stamps.len(),
            best@ == latest_of(views(stamps@.take(i as int))),
        decreases stamps.len() - i,
    {
        let a = chars_of(best.as_str());
        let b = chars_of(stamps[i].as_str());
        assert(views(stamps@.take(i + 1)).drop_last() == views(stamps@.take(i as int)));
        if lex_le_chars(&a, &b) {
            best = stamps[i].clone();
        }
        i = i + 1;
    }
    assert(stamps@.take(stamps.len() as int) == stamps@);
    best
}

/// Who filed a submission, for the filter of signed-in submitters.
pub struct SubmitterRef {
    pub submitter_type: String,
    pub user_id: Option<String>,
}

/// The user ids of the signed-in (`oauth`) submissions that carry one, in order.
pub open spec fn oauth_ids_of(subs: Seq<SubmitterRef>) -> Seq<Seq<char>>
    decreases subs.len(),
{
    if subs.len() == 0 {
        seq![]
    } else {
        let rest = oauth_ids_of(subs.drop_last());
        let s = subs.last();
        if s.submitter_type@ == "oauth"@ && s.user_id is Some {
            rest.push(s.user_id->0@)
        } else {
            rest
        }
    }
}

/// The user ids whose profiles a detail view looks up.
pub fn oauth_user_ids(subs: &Vec<SubmitterRef>) -> (r: Vec<String>)
    ensures
        views(r@) == oauth_ids_of(subs@),
{
    let oauth = String::from_str("oauth");
    let mut r: Vec<String> = Vec::new();
    let mut i: usize = 0;
    while i < subs.len()
        invariant
            i <= subs.len(),
            oauth@ == "oauth"@,
            views(r@) == oauth_ids_of(subs@.take(i as int)),
        decreases subs.len() - i,
    {
        assert(subs@.take(i + 1).drop_last() == subs@.take(i as int));
        let s = &subs[i];
        if s.submitter_type == oauth {
            match &s.user_id {
                Some(u) => {
                    let ghost before = r@;
                    r.push(u.clone());
                    assert(views(r@) == views(before).push(u@));
                },
                None => {},
            }
        }
        i = i + 1;
    }
    assert(subs@.take(subs.len() as int) == subs@);
    r
}

/// The index of the last user row with the given id (later rows win, as when
/// the rows are collected into a map keyed by id).
pub open spec fn last_user_with(users: Seq<UserRow>, id: Seq<char>, upto: int) -> Option<int>
    decreases upto,
{
    if upto <= 0 {
        None
    } else if users[upto - 1].id@ == id {
        Some(upto - 1)
    } else {
        last_user_with(users, id, upto - 1)
    }
}

/// The profile shown beside a submission: the login and avatar of the user
/// with the submission's user id, or nothing.
pub fn submitter_profile(users: &Vec<UserRow>, user_id: &Option<String>) -> (r: (
    Option<String>,
    Option<String>,
))
    ensures
        match user_id {
            Some(u) => match last_user_with(users@, u@, users.len() as int) {
                Some(k) => r.0 == Some(users@[k].login) && r.1 == users@[k].avatar_url,
                None => r.0 is None && r.1 is None,
            },
            None => r.0 is None && r.1 is None,
        },
{
    match user_id {
        None => (None, None),
        Some(u) => {
            let mut k = users.len();
            while k > 0
                invariant
                    k <= users.len(),
                    *user_id == Some(*u),
                    last_user_with(users@, u@, users.len() as int) == last_user_with(
                        users@,
                        u@,
                        k as int,
                    ),
                decreases k,
            {
                if users[k - 1].id == *u {
                    let row = &users[k - 1];
                    assert(last_user_with(users@, u@, k as int) == Some((k - 1) as int));
                    let avatar = match &row.avatar_url {
                        Some(a) => Some(a.clone()),
                        None => None,
                    };
                    let login = row.login.clone();

                    return (Some(login), avatar);
                }
                k = k - 1;
            }
            (None, None)
        },
    }
}

/// The index of the last model row with the given id.
pub open spec fn last_model_with(models: Seq<ModelRow>, id: Seq<char>, upto: int) -> Option<int>
    decreases upto,
{
    if upto <= 0 {
        None
    } else if models[upto - 1].id@ == id {
        Some(upto - 1)
    } else {
        last_model_with(models, id, upto - 1)
    }
}

/// The name shown for a submission's model: that of the (last) model row with
/// the id, or the empty string.
pub fn model_name_for(models: &Vec<ModelRow>, model_id: &String) -> (r: String)
    ensures
        r@ == match last_model_with(models@, model_id@, models.len() as int) {
            Some(k) => models@[k].name@,
            None => Seq::<char>::empty(),
        },
{
    let mut k = models.len();
    while k > 0
        invariant
            k <= models.len(),
            last_model_with(models@, model_id@, models.len() as int) == last_model_with(
                models@,
                model_id@,
                k as int,
            ),
        decreases k,
    {
        if models[k - 1].id == *model_id {
            return models[k - 1].name.clone();
        }
        k = k - 1;
    }
    String::new()
}

/// A website-model link: which website and which model.
pub struct LinkKey {
    pub website_id: String,
    pub model_id: String,
}

/// The index of the last link for the pair.
pub open spec fn last_link_with(links: Seq<LinkKey>, w: Seq<char>, m: Seq<char>, upto: int) -> Option<
    int,
>
    decreases upto,
{
    if upto <= 0 {
        None
    } else if links[upto - 1].website_id@ == w && links[upto - 1].model_id@ == m {
        Some(upto - 1)
    } else {
        last_link_with(links, w, m, upto - 1)
    }
}

/// Which link row gives the weight of a (website, model) pair: the last one
/// for the pair, or none (then the weight is 1).
pub fn link_for(links: &Vec<LinkKey>, website_id: &String, model_id: &String) -> (r: Option<usize>)
    ensures
        r == match last_link_with(links@, website_id@, model_id@, links.len() as int) {
            Some(k) => Some(k as usize),
            None => None::<usize>,
        },
{
    let mut k = links.len();
    while k > 0
        invariant
            k <= links.len(),
            last_link_with(links@, website_id@, model_id@, links.len() as int) == last_link_with(
                links@,
                website_id@,
                model_id@,
                k as int,
            ),
        decreases k,
    {
        if links[k - 1].website_id == *website_id && links[k - 1].model_id == *model_id {
            return Some(k - 1);
        }
        k = k - 1;
    }
    None
}

/// The domains a website lists: its JSON array, or its name alone when the
/// text is not a JSON array of strings.
pub fn domains_or_name(domains_json: &String, name: &String) -> (r: Vec<String>)
    ensures
        views(r@) == match spec_parse_string_array(domains_json@) {
            Some(v) => v,
            None => seq![name@],
        },
{
    match parse_string_array(domains_json.as_str()) {
        Some(v) => v,
        None => {
            let mut r: Vec<String> = Vec::new();
            r.push(name.clone());
            assert(views(r@) == seq![name@]);
            r
        },
    }
}

/// The aliases a model lists: its JSON array, or none when the text is not a
/// JSON array of strings.
pub fn aliases_or_empty(aliases_json: &String) -> (r: Vec<String>)
    ensures
        views(r@) == match spec_parse_string_array(aliases_json@) {
            Some(v) => v,
            None => Seq::<Seq<char>>::empty(),
        },
{
    match parse_string_array(aliases_json.as_str()) {
        Some(v) => v,
        None => {
            let r: Vec<String> = Vec::new();
            assert(views(r@) == Seq::<Seq<char>>::empty());
            r
        },
    }
}

/// The website a detail view is about; a missing one is not found.
pub fn website_found(row: Option<WebsiteRow>) -> (r: Result<WebsiteRow, ApiError>)
    ensures
        match row {
            Some(w) => r == Ok::<WebsiteRow, ApiError>(w),
            None => r matches Err(ApiError::NotFound(m)) && m@ == "Website not found"@,
        },
{
    match row {
        Some(w) => Ok(w),
        None => Err(ApiError::NotFound(String::from_str("Website not found"))),
    }
}

/// The model a detail view is about; a missing one is not found.
pub fn model_found(row: Option<ModelRow>) -> (r: Result<ModelRow, ApiError>)
    ensures
        match row {
            Some(m) => r == Ok::<ModelRow, ApiError>(m),
            None => r matches Err(ApiError::NotFound(msg)) && msg@ == "Model not found"@,
        },
{
    match row {
        Some(m) => Ok(m),
        None => Err(ApiError::NotFound(String::from_str("Model not found"))),
    }
}

/// The user ids looked up for a detail view are exactly those of the signed-in
/// (`oauth`) submissions that carry one.
pub proof fn oauth_ids_are_exact(subs: Seq<SubmitterRef>)
    ensures
        forall|x: Seq<char>|
            #[trigger] oauth_ids_of(subs).contains(x) <==> exists|k: int|
                0 <= k < subs.len() && #[trigger] subs[k].submitter_type@ == "oauth"@
                    && (subs[k].user_id matches Some(u) && u@ == x),
    decreases subs.len(),
{
    if subs.len() > 0 {
        let init = subs.drop_last();
        oauth_ids_are_exact(init);
        let rest = oauth_ids_of(init);
        let last = subs.last();
        assert forall|x: Seq<char>| #[trigger] oauth_ids_of(subs).contains(x) <==> exists|k: int|
            0 <= k < subs.len() && #[trigger] subs[k].submitter_type@ == "oauth"@ && (
            subs[k].user_id matches Some(u) && u@ == x) by {
            if oauth_ids_of(subs).contains(x) {
                let j = choose|j: int| 0 <= j < oauth_ids_of(subs).len() && oauth_ids_of(subs)[j] == x;
                if j < rest.len() {
                    assert(rest[j] == x);
                    assert(rest.contains(x));
                    let k = choose|k: int|
                        0 <= k < init.len() && #[trigger] init[k].submitter_type@ == "oauth"@ && (
                        init[k].user_id matches Some(u) && u@ == x);
                    assert(subs[k] == init[k]);
                } else {
                    assert(subs[subs.len() - 1] == last);
                }
            }
            if exists|k: int|
                0 <= k < subs.len() && #[trigger] subs[k].submitter_type@ == "oauth"@ && (
                subs[k].user_id matches Some(u) && u@ == x) {
                let k = choose|k: int|
                    0 <= k < subs.len() && #[trigger] subs[k].submitter_type@ == "oauth"@ && (
                    subs[k].user_id matches Some(u) && u@ == x);
                if k < subs.len() - 1 {
                    assert(init[k] == subs[k]);
                    assert(rest.contains(x));
                    let j = choose|j: int| 0 <= j < rest.len() && rest[j] == x;
                    assert(oauth_ids_of(subs)[j] == x);
                } else {
                    assert(oauth_ids_of(subs).last() == x);
                }
            }
        }
    }
}

/// The profile row of a user id is the last row with that id: it has the id,
/// and no later row has it; with no such row there is none.
pub proof fn last_user_with_is_last(users: Seq<UserRow>, id: Seq<char>, upto: int)
    requires
        0 <= upto <= users.len(),
    ensures
        match last_user_with(users, id, upto) {
            Some(k) => 0 <= k < upto && users[k].id@ == id && forall|j: int|
                k < j < upto ==> #[trigger] users[j].id@ != id,
            None => forall|j: int| 0 <= j < upto ==> #[trigger] users[j].id@ != id,
        },
    decreases upto,
{
    if upto > 0 {
        last_user_with_is_last(users, id, upto - 1);
    }
}

/// The model row of a model id is the last row with that id.
pub proof fn last_model_with_is_last(models: Seq<ModelRow>, id: Seq<char>, upto: int)
    requires
        0 <= upto <= models.len(),
    ensures
        match last_model_with(models, id, upto) {
            Some(k) => 0 <= k < upto && models[k].id@ == id && forall|j: int|
                k < j < upto ==> #[trigger] models[j].id@ != id,
            None => forall|j: int| 0 <= j < upto ==> #[trigger] models[j].id@ != id,
        },
    decreases upto,
{
    if upto > 0 {
        last_model_with_is_last(models, id, upto - 1);
    }
}

/// The link row that weighs a website-model pair is the last row for the pair.
pub proof fn last_link_with_is_last(links: Seq<LinkKey>, w: Seq<char>, m: Seq<char>, upto: int)
    requires
        0 <= upto <= links.len(),
    ensures
        match last_link_with(links, w, m, upto) {
            Some(k) => 0 <= k < upto && links[k].website_id@ == w && links[k].model_id@ == m
                && forall|j: int|
                k < j < upto ==> !(#[trigger] links[j].website_id@ == w && links[j].model_id@ == m),
            None => forall|j: int|
                0 <= j < upto ==> !(#[trigger] links[j].website_id@ == w && links[j].model_id@ == m),
        },
    decreases upto,
{
    if upto > 0 {
        last_link_with_is_last(links, w, m, upto - 1);
    }
}

} // verus!
