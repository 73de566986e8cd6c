//! The items of the launcher, and how a query filters and ranks them.

use fuzzy_matcher::skim::SkimMatcherV2;
use fuzzy_matcher::FuzzyMatcher;

use vstd::prelude::*;

use crate::apps::AppEntry;
use crate::clipboard::{content_preview, content_subtitle, ClipModel, ClipboardEntry};
use crate::order::{
    asymmetric, comes_first, is_ranking, key_before, law_ranking_exists, lemma_ranking_agrees,
    rank, rank_all, ranked, Descending, DescendingUnsigned,
};
use crate::pass::PassEntry;
use crate::text::{
    chars_of, code_point, is_white, opt_text, same, string_of, trim, trimmed,
};

verus! {

// ── Items ─────────────────────────────────────────────────────────────────────

/// A result item shown in the launcher list.
#[derive(Debug)]
pub enum LaunchItem {
    App(AppEntry),
    Clip(ClipboardEntry),
    Pass(PassEntry),
}

/// What an item holds.
#[verifier::ext_equal]
pub enum ItemModel {
    App { name: Seq<char>, path: Seq<char> },
    Clip(ClipModel),
    Pass { name: Seq<char> },
}

impl View for LaunchItem {
    type V = ItemModel;

    open spec fn view(&self) -> ItemModel {
        match self {
            LaunchItem::App(a) => ItemModel::App { name: a.name@, path: a.path@ },
            LaunchItem::Clip(c) => ItemModel::Clip(c@),
            LaunchItem::Pass(p) => ItemModel::Pass { name: p.name@ },
        }
    }
}

impl Clone for LaunchItem {
    fn clone(&self) -> (r: Self)
        ensures
            r@ == self@,
    {
        match self {
            LaunchItem::App(a) => LaunchItem::App(a.clone()),
            LaunchItem::Clip(c) => LaunchItem::Clip(c.clone()),
            LaunchItem::Pass(p) => LaunchItem::Pass(p.clone()),
        }
    }
}

/// What a list of items holds.
pub open spec fn item_models(items: Seq<LaunchItem>) -> Seq<ItemModel> {
    Seq::new(items.len(), |i: int| items[i]@)
}

/// The primary text of an item.
pub open spec fn item_name(item: ItemModel) -> Seq<char> {
    match item {
        ItemModel::App { name, .. } => name,
        ItemModel::Clip(c) => content_preview(c.content),
        ItemModel::Pass { name } => name,
    }
}

/// What launches of an item are recorded under; those of clipboard items are not.
pub open spec fn item_key(item: ItemModel) -> Seq<char> {
    match item {
        ItemModel::App { name, .. } => name,
        ItemModel::Clip(c) => seq![],
        ItemModel::Pass { name } => name,
    }
}

impl LaunchItem {
    /// Primary text shown in the row.
    pub fn display_name(&self) -> (r: String)
        ensures
            r@ == item_name(self@),
    {
        match self {
            LaunchItem::App(a) => a.name.clone(),
            LaunchItem::Clip(c) => c.preview(),
            LaunchItem::Pass(p) => p.name.clone(),
        }
    }

    /// Secondary text shown below the name (subtitle row).
    pub fn subtitle(&self) -> (r: Option<String>)
        ensures
            opt_text(r) == match self@ {
                ItemModel::Clip(c) => Some(content_subtitle(c.content)),
                _ => None,
            },
    {
        match self {
            LaunchItem::App(_) => None,
            LaunchItem::Clip(c) => Some(c.subtitle()),
            LaunchItem::Pass(_) => None,
        }
    }

    /// What launches of the item are recorded under.
    pub fn key(&self) -> (r: String)
        ensures
            r@ == item_key(self@),
    {
        match self {
            LaunchItem::App(a) => a.name.clone(),
            LaunchItem::Clip(_) => {
                let r = String::new();
                assert(r@ =~= seq![]);
                r
            },
            LaunchItem::Pass(p) => p.name.clone(),
        }
    }
}

// ── Fuzzy matching ────────────────────────────────────────────────────────────

/// How long a text may be that is matched; the matcher counts in 32-bit scores.
pub const MAX_NAME_LEN: usize = 16777216;

/// An ASCII letter in lower case, any other character as it is.
pub open spec fn ascii_lower(c: char) -> char {
    if 'A' as int <= c as int <= 'Z' as int {
        (c as int + 32) as char
    } else {
        c
    }
}

/// The pattern holds an ASCII upper-case letter, so that case counts.
pub open spec fn case_counts(pattern: Seq<char>) -> bool {
    exists|i: int|
        0 <= i < pattern.len() && 'A' as int <= #[trigger] pattern[i] as int <= 'Z' as int
}

/// Two characters match.
pub open spec fn chars_match(a: char, b: char, case: bool) -> bool {
    if case {
        a == b
    } else {
        ascii_lower(a) == ascii_lower(b)
    }
}

/// The characters of the pattern occur in the text in their order, with others between
/// them or not.
pub open spec fn in_sequence(text: Seq<char>, pattern: Seq<char>, case: bool) -> bool
    decreases text.len(),
{
    if pattern.len() == 0 {
        true
    } else if text.len() == 0 {
        false
    } else if chars_match(text[0], pattern[0], case) {
        in_sequence(text.skip(1), pattern.skip(1), case)
    } else {
        in_sequence(text.skip(1), pattern, case)
    }
}

/// The pattern matches the text.
pub open spec fn fuzzy_matches(text: Seq<char>, pattern: Seq<char>) -> bool {
    in_sequence(text, pattern, case_counts(pattern))
}

/// What `SkimMatcherV2::fuzzy_match` says of a text and a pattern: how well the pattern
/// matches, or nothing where it does not.
pub uninterp spec fn skim_score(text: Seq<char>, pattern: Seq<char>) -> Option<i64>;

/// Calls `fuzzy_match` of a new `fuzzy_matcher::skim::SkimMatcherV2`. The score depends on
/// the two texts alone, as the matcher has matched nothing before. There is one exactly
/// where the characters of the pattern occur in the text in their order, ASCII letters in
/// either case unless the pattern holds an upper-case one; and it fits in 32 bits.
#[verifier::external_body]
fn fuzzy_score(text: &str, pattern: &str) -> (r: Option<i64>)
    requires
        text@.len() <= MAX_NAME_LEN,
    ensures
        r == skim_score(text@, pattern@),
        r is Some == fuzzy_matches(text@, pattern@),
        r matches Some(score) ==> i32::MIN <= score <= i32::MAX,
{
    SkimMatcherV2::default().fuzzy_match(text, pattern)
}

/// The code point of a character, of an ASCII letter in lower case.
fn lower_code(c: char) -> (r: u32)
    ensures
        r == ascii_lower(c) as int,
{
    let u: u32 = code_point(c);
    if code_point('A') <= u && u <= code_point('Z') {
        u + 32
    } else {
        u
    }
}

fn same_char(a: char, b: char, case: bool) -> (r: bool)
    ensures
        r == chars_match(a, b, case),
{
    if case {
        a == b
    } else {
        lower_code(a) == lower_code(b)
    }
}

fn has_upper(pattern: &Vec<char>) -> (r: bool)
    ensures
        r == case_counts(pattern@),
{
    let mut i: usize = 0;
    while i < pattern.len()
        invariant
            i <= pattern@.len(),
            forall|k: int|
                0 <= k < i ==> !('A' as int <= #[trigger] pattern@[k] as int <= 'Z' as int),
        decreases pattern@.len() - i,
    {
        let u: u32 = code_point(pattern[i]);
        if code_point('A') <= u && u <= code_point('Z') {
            assert('A' as int <= pattern@[i as int] as int <= 'Z' as int);
            return true;
        }
        i = i + 1;
    }
    false
}

/// Whether the pattern matches the text. A text that is too long for the scores of the
/// matcher is looked through for the characters of the pattern alone.
pub fn is_match(text: &str, pattern: &str) -> (r: bool)
    ensures
        r == fuzzy_matches(text@, pattern@),
{
    let t = chars_of(text);
    if t.len() <= MAX_NAME_LEN {
        return fuzzy_score(text, pattern).is_some();
    }
    let p = chars_of(pattern);
    let case = has_upper(&p);
    let mut i: usize = 0;
    let mut j: usize = 0;
    assert(t@.skip(0) =~= t@ && p@.skip(0) =~= p@);
    while i < t.len() && j < p.len()
        invariant
            i <= t@.len(),
            j <= p@.len(),
            in_sequence(t@.skip(i as int), p@.skip(j as int), case) == in_sequence(t@, p@, case),
        decreases t@.len() - i,
    {
        assert(t@.skip(i as int).skip(1) =~= t@.skip(i as int + 1));
        assert(p@.skip(j as int).skip(1) =~= p@.skip(j as int + 1));
        if same_char(t[i], p[j], case) {
            j = j + 1;
        }
        i = i + 1;
    }
    j == p.len()
}

/// The part of a name that can be ranked: all of it, unless it is too long for the scores of
/// the matcher.
pub open spec fn rankable(name: Seq<char>) -> Seq<char> {
    if name.len() > MAX_NAME_LEN {
        name.take(MAX_NAME_LEN as int)
    } else {
        name
    }
}

/// Cuts a name that is too long to be ranked.
pub fn rankable_name(name: &str) -> (r: String)
    ensures
        r@ == rankable(name@),
{
    let v = chars_of(name);
    if v.len() > MAX_NAME_LEN {
        let head = vstd::slice::slice_subrange(v.as_slice(), 0, MAX_NAME_LEN);
        assert(head@ =~= name@.take(MAX_NAME_LEN as int));
        string_of(head)
    } else {
        name.to_owned()
    }
}

// ── Scores ────────────────────────────────────────────────────────────────────

/// How much the launches of an item count.
#[derive(Clone, Copy, PartialEq, Eq, Structural, Debug)]
pub struct Frecency {
    /// Ranks items by their frecency: more is better.
    pub order: u64,
    /// What the frecency adds to a fuzzy score.
    pub bonus: u64,
}

/// The most that frecency adds to a fuzzy score, so that a poor fuzzy match never beats a
/// good one.
pub const MAX_BONUS: u64 = 50;

/// What the launches of an unknown item count.
pub open spec fn no_frecency() -> Frecency {
    Frecency { order: 0, bonus: 0 }
}

/// The frecency of one item.
struct KeyScore {
    key: String,
    value: Frecency,
}

/// The frecency of the items launched so far, at one moment.
pub struct ScoreTable {
    scores: Vec<KeyScore>,
}

spec fn looked_up(scores: Seq<KeyScore>, key: Seq<char>) -> Frecency
    decreases scores.len(),
{
    if scores.len() == 0 {
        no_frecency()
    } else if scores.last().key@ == key {
        scores.last().value
    } else {
        looked_up(scores.drop_last(), key)
    }
}

impl View for ScoreTable {
    type V = spec_fn(Seq<char>) -> Frecency;

    /// From item key to frecency.
    closed spec fn view(&self) -> spec_fn(Seq<char>) -> Frecency {
        |key: Seq<char>| looked_up(self.scores@, key)
    }
}

impl Default for ScoreTable {
    /// A table that knows no item.
    fn default() -> (t: Self)
        ensures
            forall|key: Seq<char>| #[trigger] t@(key) == no_frecency(),
    {
        ScoreTable { scores: Vec::new() }
    }
}

impl ScoreTable {
    /// Sets the frecency of an item.
    pub fn set_score(&mut self, key: &str, value: Frecency)
        ensures
            forall|k: Seq<char>| #[trigger]
                final(self)@(k) == if k == key@ {
                    value
                } else {
                    old(self)@(k)
                },
    {
        let ghost before = self.scores@;
        self.scores.push(KeyScore { key: key.to_owned(), value });
        assert(self.scores@.drop_last() =~= before);
    }

    /// The frecency of an item.
    pub fn score(&self, key: &str) -> (r: Frecency)
        ensures
            r == self@(key@),
    {
        let mut i: usize = self.scores.len();
        assert(self.scores@.take(i as int) =~= self.scores@);
        while i > 0
            invariant
                i <= self.scores@.len(),
                looked_up(self.scores@.take(i as int), key@) == self@(key@),
            decreases i,
        {
            assert(self.scores@.take(i as int).drop_last() =~= self.scores@.take(i - 1));
            i = i - 1;
            if same(self.scores[i].key.as_str(), key) {
                return self.scores[i].value;
            }
        }
        Frecency { order: 0, bonus: 0 }
    }

    /// The frecencies of the items.
    pub fn scores(&self, items: &Vec<LaunchItem>) -> (r: Vec<Frecency>)
        ensures
            r@.len() == items@.len(),
            forall|i: int|
                0 <= i < items@.len() ==> #[trigger] r@[i] == self@(item_key(items@[i]@)),
    {
        let mut r: Vec<Frecency> = Vec::new();
        let mut i: usize = 0;
        while i < items.len()
            invariant
                i <= items@.len(),
                r@.len() == i,
                forall|k: int| 0 <= k < i ==> #[trigger] r@[k] == self@(item_key(items@[k]@)),
            decreases items@.len() - i,
        {
            let key = items[i].key();
            r.push(self.score(key.as_str()));
            i = i + 1;
        }
        r
    }
}

// ── Search ────────────────────────────────────────────────────────────────────

/// A fuzzy score with what frecency adds to it.
pub open spec fn boosted(score: i64, f: Frecency) -> int {
    score + if f.bonus > MAX_BONUS {
        MAX_BONUS as int
    } else {
        f.bonus as int
    }
}

/// One item is more used than another.
pub open spec fn more_used(f: Seq<Frecency>, i: int, j: int) -> bool {
    f[i].order > f[j].order
}

/// One matching item scores higher than another.
pub open spec fn scores_higher(scores: Seq<Option<i64>>, f: Seq<Frecency>, i: int, j: int) -> bool {
    scores[i] is Some && scores[j] is Some && boosted(scores[i]->0, f[i]) > boosted(
        scores[j]->0,
        f[j],
    )
}

/// The ranking by frecency alone, level items in their original order.
pub open spec fn by_use(f: Seq<Frecency>) -> Seq<usize> {
    ranked(f.len() as int, |i: int| true, |i: int, j: int| more_used(f, i, j))
}

/// The ranking of the items that match, by their score with what frecency adds, level ones
/// in their original order.
pub open spec fn by_score(scores: Seq<Option<i64>>, f: Seq<Frecency>) -> Seq<usize> {
    ranked(
        scores.len() as int,
        |i: int| scores[i] is Some,
        |i: int, j: int| scores_higher(scores, f, i, j),
    )
}

/// The frecencies of items.
pub open spec fn frecencies(items: Seq<ItemModel>, table: spec_fn(Seq<char>) -> Frecency) -> Seq<
    Frecency,
> {
    Seq::new(items.len(), |i: int| table(item_key(items[i])))
}

/// The fuzzy scores of items.
pub open spec fn fuzzy_scores(items: Seq<ItemModel>, query: Seq<char>) -> Seq<Option<i64>> {
    Seq::new(items.len(), |i: int| skim_score(item_name(items[i]), query))
}

/// The items that a query finds, in ranked order.
pub open spec fn search_result(
    query: Seq<char>,
    items: Seq<ItemModel>,
    table: spec_fn(Seq<char>) -> Frecency,
) -> Seq<usize> {
    if query.len() == 0 {
        by_use(frecencies(items, table))
    } else {
        by_score(fuzzy_scores(items, query), frecencies(items, table))
    }
}

/// No item has a name that is too long to be matched.
pub open spec fn names_fit(items: Seq<ItemModel>) -> bool {
    forall|i: int| 0 <= i < items.len() ==> item_name(#[trigger] items[i]).len() <= MAX_NAME_LEN
}

/// Ranks items by their frecency alone.
pub fn rank_by_use(f: &Vec<Frecency>) -> (r: Vec<usize>)
    ensures
        r@ == by_use(f@),
        forall|a: int| 0 <= a < r@.len() ==> (#[trigger] r@[a]) < f@.len(),
{
    let mut keys: Vec<DescendingUnsigned> = Vec::new();
    let mut i: usize = 0;
    while i < f.len()
        invariant
            i <= f@.len(),
            keys@.len() == i,
            forall|k: int| 0 <= k < i ==> (#[trigger] keys@[k]).0 == f@[k].order,
        decreases f@.len() - i,
    {
        keys.push(DescendingUnsigned(f[i].order));
        i = i + 1;
    }
    let r = rank_all(&keys);
    proof {
        lemma_ranking_agrees(
            r@,
            f@.len() as int,
            |i: int| true,
            |i: int, j: int| key_before(keys@, i, j),
            |i: int| true,
            |i: int, j: int| more_used(f@, i, j),
        );
    }
    r
}

/// Ranks the items that have a fuzzy score, by it and by what frecency adds.
pub fn rank_by_score(scores: &Vec<Option<i64>>, f: &Vec<Frecency>) -> (r: Vec<usize>)
    requires
        scores@.len() == f@.len(),
        forall|i: int|
            0 <= i < scores@.len() ==> (#[trigger] scores@[i] matches Some(s) ==> s <= i64::MAX
                - MAX_BONUS),
    ensures
        r@ == by_score(scores@, f@),
        forall|a: int| 0 <= a < r@.len() ==> (#[trigger] r@[a]) < scores@.len(),
{
    let ghost keep = |i: int| scores@[i] is Some;
    let mut keys: Vec<Descending> = Vec::new();
    let mut ids: Vec<usize> = Vec::new();
    let mut i: usize = 0;
    while i < scores.len()
        invariant
            i <= scores@.len(),
            scores@.len() == f@.len(),
            forall|i: int|
                0 <= i < scores@.len() ==> (#[trigger] scores@[i] matches Some(s) ==> s <= i64::MAX
                    - MAX_BONUS),
            keep == (|i: int| scores@[i] is Some),
            keys@.len() == i,
            forall|k: int|
                0 <= k < i && scores@[k] is Some ==> (#[trigger] keys@[k]).0 == boosted(
                    scores@[k]->0,
                    f@[k],
                ),
            forall|x: int| 0 <= x < ids@.len() ==> (#[trigger] ids@[x]) < i && keep(ids@[x] as int),
            forall|k: usize| k < i && keep(k as int) ==> #[trigger] ids@.contains(k),
            forall|x: int, y: int| 0 <= x < y < ids@.len() ==> ids@[x] < ids@[y],
        decreases scores@.len() - i,
    {
        let ghost prev = ids@;
        match scores[i] {
            Some(score) => {
                let bonus: u64 = if f[i].bonus > MAX_BONUS {
                    MAX_BONUS
                } else {
                    f[i].bonus
                };
                keys.push(Descending(score + bonus as i64));
                ids.push(i);
                assert(ids@[ids@.len() - 1] == i);
            },
            None => {
                keys.push(Descending(0));
            },
        }
        proof {
            assert forall|k: usize| k < i + 1 && keep(k as int) implies #[trigger] ids@.contains(
                k,
            ) by {
                if k < i {
                    assert(prev.contains(k));
                    let x = choose|x: int| 0 <= x < prev.len() && prev[x] == k;
                    assert(ids@[x] == k);
                }
            }
        }
        i = i + 1;
    }
    let r = rank(&keys, &ids, Ghost(keep));
    proof {
        lemma_kept_ranking_agrees(
            r@,
            scores@.len() as int,
            keep,
            |i: int, j: int| key_before(keys@, i, j),
            |i: int, j: int| scores_higher(scores@, f@, i, j),
        );
    }
    r
}

/// A ranking stays one where two orders agree on the items that are kept.
proof fn lemma_kept_ranking_agrees(
    r: Seq<usize>,
    n: int,
    keep: spec_fn(int) -> bool,
    before: spec_fn(int, int) -> bool,
    before2: spec_fn(int, int) -> bool,
)
    requires
        is_ranking(r, n, keep, before),
        forall|i: int, j: int|
            0 <= i < n && 0 <= j < n && keep(i) && keep(j) ==> #[trigger] before(i, j) == before2(
                i,
                j,
            ),
        asymmetric(before2),
    ensures
        is_ranking(r, n, keep, before2),
        r == ranked(n, keep, before2),
{
    assert forall|a: int, b: int| 0 <= a < b < r.len() implies comes_first(
        before2,
        #[trigger] r[a] as int,
        #[trigger] r[b] as int,
    ) by {
        assert(comes_first(before, r[a] as int, r[b] as int));
        assert(before(r[a] as int, r[b] as int) == before2(r[a] as int, r[b] as int));
        assert(before(r[b] as int, r[a] as int) == before2(r[b] as int, r[a] as int));
    }
    crate::order::law_ranking_unique(r, n, keep, before2);
}

/// Filters and ranks items.
#[derive(Debug)]
pub struct Launcher {}

impl Launcher {
    /// A launcher.
    pub fn new() -> (l: Self)
        ensures
            l == (Launcher {  }),
    {
        Launcher {  }
    }

    /// Filters and ranks items by query, boosted by frecency. Returns indices into `items`
    /// in ranked order.
    ///
    /// - Empty query: sorts purely by frecency (most-used first).
    /// - Non-empty query: fuzzy-matches, but adds a frecency bonus so frequently-used items
    ///   rise within ties (the bonus is capped so a poor fuzzy match never beats a good one).
    pub fn search(&self, query: &str, items: &Vec<LaunchItem>, frecency: &ScoreTable) -> (r: Vec<
        usize,
    >)
        requires
            names_fit(item_models(items@)),
        ensures
            r@ == search_result(query@, item_models(items@), frecency@),
            forall|a: int| 0 <= a < r@.len() ==> (#[trigger] r@[a]) < items@.len(),
            query@.len() > 0 ==> forall|i: usize|
                i < items@.len() ==> #[trigger] r@.contains(i) == fuzzy_matches(
                    item_name(items@[i as int]@),
                    query@,
                ),
    {
        let ghost models = item_models(items@);
        let f = frecency.scores(items);
        assert(f@ =~= frecencies(models, frecency@));
        if chars_of(query).len() == 0 {
            return rank_by_use(&f);
        }
        let mut scores: Vec<Option<i64>> = Vec::new();
        let mut i: usize = 0;
        while i < items.len()
            invariant
                i <= items@.len(),
                models == item_models(items@),
                names_fit(models),
                scores@.len() == i,
                forall|k: int|
                    0 <= k < i ==> #[trigger] scores@[k] == skim_score(item_name(models[k]), query@),
                forall|k: int|
                    0 <= k < i ==> #[trigger] scores@[k] is Some == fuzzy_matches(
                        item_name(models[k]),
                        query@,
                    ),
                forall|k: int|
                    0 <= k < i ==> (#[trigger] scores@[k] matches Some(s) ==> s <= i32::MAX),
            decreases items@.len() - i,
        {
            let name = items[i].display_name();
            assert(item_name(models[i as int]) == name@);
            scores.push(fuzzy_score(name.as_str(), query));
            i = i + 1;
        }
        assert(scores@ =~= fuzzy_scores(models, query@));
        let r = rank_by_score(&scores, &f);
        proof {
            assert forall|i: usize| i < items@.len() implies #[trigger] r@.contains(i)
                == fuzzy_matches(item_name(items@[i as int]@), query@) by {
                law_search_finds(query@, models, frecency@, i);
                assert(scores@[i as int] is Some == fuzzy_matches(
                    item_name(models[i as int]),
                    query@,
                ));
            }
        }
        r
    }
}

/// The order by score, and the order by use, rank.
proof fn lemma_search_ranks(scores: Seq<Option<i64>>, f: Seq<Frecency>)
    requires
        scores.len() == f.len() <= usize::MAX,
    ensures
        is_ranking(
            by_score(scores, f),
            scores.len() as int,
            |i: int| scores[i] is Some,
            |i: int, j: int| scores_higher(scores, f, i, j),
        ),
        is_ranking(
            by_use(f),
            f.len() as int,
            |i: int| true,
            |i: int, j: int| more_used(f, i, j),
        ),
{
    let n = scores.len() as int;
    let keep = |i: int| scores[i] is Some;
    let before = |i: int, j: int| scores_higher(scores, f, i, j);
    // Items without a score come behind the others, so that the order is a weak one.
    let total = |i: int, j: int|
        scores[i] is Some && (scores[j] is None || boosted(scores[i]->0, f[i]) > boosted(
            scores[j]->0,
            f[j],
        ));
    law_ranking_exists(n, keep, total);
    lemma_kept_ranking_agrees(ranked(n, keep, total), n, keep, total, before);
    law_ranking_exists(n, |i: int| true, |i: int, j: int| more_used(f, i, j));
}

/// A query finds items that are there, each once.
pub proof fn law_search_in_range(
    query: Seq<char>,
    items: Seq<ItemModel>,
    table: spec_fn(Seq<char>) -> Frecency,
)
    requires
        items.len() <= usize::MAX,
    ensures
        forall|a: int|
            0 <= a < search_result(query, items, table).len() ==> (#[trigger] search_result(
                query,
                items,
                table,
            )[a]) < items.len(),
        forall|a: int, b: int|
            0 <= a < b < search_result(query, items, table).len() ==> (#[trigger] search_result(
                query,
                items,
                table,
            )[a]) != (#[trigger] search_result(query, items, table)[b]),
{
    let r = search_result(query, items, table);
    let scores = fuzzy_scores(items, query);
    let f = frecencies(items, table);
    lemma_search_ranks(scores, f);
    let higher = |i: int, j: int| scores_higher(scores, f, i, j);
    let used = |i: int, j: int| more_used(f, i, j);
    assert forall|a: int, b: int| 0 <= a < b < r.len() implies (#[trigger] r[a]) != (
    #[trigger] r[b]) by {
        if query.len() == 0 {
            assert(comes_first(used, r[a] as int, r[b] as int));
        } else {
            assert(comes_first(higher, r[a] as int, r[b] as int));
        }
    }
}

/// A query finds exactly the items whose name it has a fuzzy score on, and an empty one
/// finds all.
pub proof fn law_search_finds(
    query: Seq<char>,
    items: Seq<ItemModel>,
    table: spec_fn(Seq<char>) -> Frecency,
    i: usize,
)
    requires
        items.len() <= usize::MAX,
        i < items.len(),
    ensures
        query.len() == 0 ==> search_result(query, items, table).contains(i),
        query.len() > 0 ==> search_result(query, items, table).contains(i) == skim_score(
            item_name(items[i as int]),
            query,
        ) is Some,
{
    let scores = fuzzy_scores(items, query);
    let f = frecencies(items, table);
    lemma_search_ranks(scores, f);
    let keep = |i: int| scores[i] is Some;
    let r = by_score(scores, f);
    if r.contains(i) {
        let a = choose|a: int| 0 <= a < r.len() && r[a] == i;
        assert(keep(r[a] as int));
    }
    if scores[i as int] is Some {
        assert(keep(i as int));
    }
    assert((|i: int| true)(i as int));
}

/// A poor fuzzy match never beats a good one: an item whose fuzzy score is more than
/// [`MAX_BONUS`] higher stands in front, however often the other was launched.
pub proof fn law_search_good_match_first(
    query: Seq<char>,
    items: Seq<ItemModel>,
    table: spec_fn(Seq<char>) -> Frecency,
    a: int,
    b: int,
)
    requires
        items.len() <= usize::MAX,
        query.len() > 0,
        0 <= a < search_result(query, items, table).len(),
        0 <= b < search_result(query, items, table).len(),
        ({
            let r = search_result(query, items, table);
            let scores = fuzzy_scores(items, query);
            scores[r[a] as int]->0 > scores[r[b] as int]->0 + MAX_BONUS
        }),
    ensures
        a < b,
{
    let r = search_result(query, items, table);
    let scores = fuzzy_scores(items, query);
    let f = frecencies(items, table);
    lemma_search_ranks(scores, f);
    let keep = |i: int| scores[i] is Some;
    let before = |i: int, j: int| scores_higher(scores, f, i, j);
    assert(keep(r[a] as int) && keep(r[b] as int));
    if b < a {
        assert(comes_first(before, r[b] as int, r[a] as int));
        assert(before(r[a] as int, r[b] as int));
    }
}

/// Among items that match equally well, the one with the higher bonus, counted up to 50, stands
/// in front; and where the bonuses are level too, the one that came first.
pub proof fn law_search_ties(
    query: Seq<char>,
    items: Seq<ItemModel>,
    table: spec_fn(Seq<char>) -> Frecency,
    a: int,
    b: int,
)
    requires
        items.len() <= usize::MAX,
        query.len() > 0,
        0 <= a < b < search_result(query, items, table).len(),
        ({
            let r = search_result(query, items, table);
            let scores = fuzzy_scores(items, query);
            scores[r[a] as int] == scores[r[b] as int]
        }),
    ensures
        ({
            let r = search_result(query, items, table);
            let f = frecencies(items, table);
            let x = least(f[r[a] as int].bonus as int, 50);
            let y = least(f[r[b] as int].bonus as int, 50);
            ||| x > y
            ||| x == y && r[a] < r[b]
        }),
{
    let r = search_result(query, items, table);
    let scores = fuzzy_scores(items, query);
    let f = frecencies(items, table);
    lemma_search_ranks(scores, f);
    let keep = |i: int| scores[i] is Some;
    let before = |i: int, j: int| scores_higher(scores, f, i, j);
    assert(keep(r[a] as int) && keep(r[b] as int));
    assert(comes_first(before, r[a] as int, r[b] as int));
}

/// Without a query, every item is listed, the most used first, and level ones in their
/// original order.
pub proof fn law_search_by_use(
    items: Seq<ItemModel>,
    table: spec_fn(Seq<char>) -> Frecency,
    a: int,
    b: int,
)
    requires
        items.len() <= usize::MAX,
        0 <= a < b < search_result(seq![], items, table).len(),
    ensures
        ({
            let r = search_result(seq![], items, table);
            let f = frecencies(items, table);
            ||| f[r[a] as int].order > f[r[b] as int].order
            ||| f[r[a] as int].order == f[r[b] as int].order && r[a] < r[b]
        }),
{
    let r = search_result(seq![], items, table);
    let f = frecencies(items, table);
    lemma_search_ranks(fuzzy_scores(items, seq![]), f);
    let before = |i: int, j: int| more_used(f, i, j);
    assert(comes_first(before, r[a] as int, r[b] as int));
}

// ── Shell commands ────────────────────────────────────────────────────────────

/// The command that is run for a text: the text trimmed, unless nothing is left.
pub open spec fn command_of(text: Seq<char>) -> Option<Seq<char>> {
    if trimmed(text).len() == 0 {
        None
    } else {
        Some(trimmed(text))
    }
}

/// The shell command to run for a text, if any.
pub fn shell_command(text: &str) -> (r: Option<String>)
    ensures
        opt_text(r) == command_of(text@),
{
    let v = chars_of(text);
    let t = trim(v.as_slice());
    if t.len() == 0 {
        None
    } else {
        Some(string_of(t))
    }
}

// ── Laws ──────────────────────────────────────────────────────────────────────

/// The smaller of two numbers.
pub open spec fn least(a: int, b: int) -> int {
    if a < b {
        a
    } else {
        b
    }
}

/// The ranking by score holds the items with a score and no others. Of two of them the one
/// with more fuzzy score and bonus together stands in front, whatever these are, a bonus
/// above 50 counting as 50; and where the sums are level, the one that came first.
pub proof fn law_ranked_by_score(scores: Seq<Option<i64>>, f: Seq<Frecency>)
    requires
        scores.len() == f.len() <= usize::MAX,
    ensures
        forall|k: usize|
            k < scores.len() ==> #[trigger] by_score(scores, f).contains(k)
                == scores[k as int] is Some,
        forall|a: int|
            0 <= a < by_score(scores, f).len() ==> (#[trigger] by_score(scores, f)[a])
                < scores.len(),
        forall|a: int, b: int|
            0 <= a < b < by_score(scores, f).len() ==> {
                let i = #[trigger] by_score(scores, f)[a] as int;
                let j = #[trigger] by_score(scores, f)[b] as int;
                let x = scores[i]->0 + least(f[i].bonus as int, 50);
                let y = scores[j]->0 + least(f[j].bonus as int, 50);
                x > y || (x == y && i < j)
            },
{
    lemma_search_ranks(scores, f);
    let r = by_score(scores, f);
    let keep = |i: int| scores[i] is Some;
    let before = |i: int, j: int| scores_higher(scores, f, i, j);
    assert forall|k: usize| k < scores.len() implies #[trigger] r.contains(k)
        == scores[k as int] is Some by {
        if r.contains(k) {
            let a = choose|a: int| 0 <= a < r.len() && r[a] == k;
            assert(keep(r[a] as int));
        }
        if scores[k as int] is Some {
            assert(keep(k as int));
        }
    }
    assert forall|a: int, b: int| 0 <= a < b < r.len() implies {
        let i = #[trigger] r[a] as int;
        let j = #[trigger] r[b] as int;
        let x = scores[i]->0 + least(f[i].bonus as int, 50);
        let y = scores[j]->0 + least(f[j].bonus as int, 50);
        x > y || (x == y && i < j)
    } by {
        assert(comes_first(before, r[a] as int, r[b] as int));
        assert(keep(r[a] as int) && keep(r[b] as int));
    }
}

/// Of two items with the same fuzzy score, whatever it is, the one with the higher capped
/// bonus stands strictly in front.
pub proof fn law_bonus_breaks_ties(scores: Seq<Option<i64>>, f: Seq<Frecency>, a: int, b: int)
    requires
        scores.len() == f.len() <= usize::MAX,
        0 <= a < by_score(scores, f).len(),
        0 <= b < by_score(scores, f).len(),
        scores[by_score(scores, f)[a] as int] == scores[by_score(scores, f)[b] as int],
        least(f[by_score(scores, f)[a] as int].bonus as int, 50) > least(
            f[by_score(scores, f)[b] as int].bonus as int,
            50,
        ),
    ensures
        a < b,
{
    law_ranked_by_score(scores, f);
    let r = by_score(scores, f);
    if b < a {
        let (i, j) = (r[b] as int, r[a] as int);
        assert(scores[i]->0 + least(f[i].bonus as int, 50) >= scores[j]->0 + least(
            f[j].bonus as int,
            50,
        ));
    }
}

/// The same of what a query finds: the fuzzy score of the name of an item and what the table
/// knows of its key decide, and nothing else.
pub proof fn law_search_order(
    query: Seq<char>,
    items: Seq<ItemModel>,
    table: spec_fn(Seq<char>) -> Frecency,
    a: int,
    b: int,
)
    requires
        items.len() <= usize::MAX,
        query.len() > 0,
        0 <= a < b < search_result(query, items, table).len(),
    ensures
        ({
            let r = search_result(query, items, table);
            let p = items[r[a] as int];
            let q = items[r[b] as int];
            let s = skim_score(item_name(p), query);
            let t = skim_score(item_name(q), query);
            let x = s->0 + least(table(item_key(p)).bonus as int, 50);
            let y = t->0 + least(table(item_key(q)).bonus as int, 50);
            &&& s is Some && t is Some
            &&& x > y || (x == y && r[a] < r[b])
        }),
{
    let scores = fuzzy_scores(items, query);
    let f = frecencies(items, table);
    law_ranked_by_score(scores, f);
    let r = search_result(query, items, table);
    assert(r == by_score(scores, f));
    assert(r[a] < items.len() && r[b] < items.len());
    assert(r.contains(r[a]) && r.contains(r[b]));
    let i = r[a] as int;
    let j = r[b] as int;
    assert(scores[i] == skim_score(item_name(items[i]), query));
    assert(scores[j] == skim_score(item_name(items[j]), query));
    assert(f[i] == table(item_key(items[i])) && f[j] == table(item_key(items[j])));
}

/// Of two items that a query matches equally well, the one with the higher capped bonus
/// stands strictly in front.
pub proof fn law_search_bonus_breaks_ties(
    query: Seq<char>,
    items: Seq<ItemModel>,
    table: spec_fn(Seq<char>) -> Frecency,
    a: int,
    b: int,
)
    requires
        items.len() <= usize::MAX,
        query.len() > 0,
        0 <= a < search_result(query, items, table).len(),
        0 <= b < search_result(query, items, table).len(),
        ({
            let p = items[search_result(query, items, table)[a] as int];
            let q = items[search_result(query, items, table)[b] as int];
            &&& skim_score(item_name(p), query) == skim_score(item_name(q), query)
            &&& least(table(item_key(p)).bonus as int, 50) > least(
                table(item_key(q)).bonus as int,
                50,
            )
        }),
    ensures
        a < b,
{
    if b < a {
        law_search_order(query, items, table, b, a);
    }
}

/// Without a query every item is listed, each once.
pub proof fn law_search_lists_all(items: Seq<ItemModel>, table: spec_fn(Seq<char>) -> Frecency)
    requires
        items.len() <= usize::MAX,
    ensures
        search_result(seq![], items, table).len() == items.len(),
        search_result(seq![], items, table).no_duplicates(),
{
    let f = frecencies(items, table);
    lemma_search_ranks(fuzzy_scores(items, seq![]), f);
    crate::order::lemma_ranking_len(
        by_use(f),
        f.len() as int,
        |i: int, j: int| more_used(f, i, j),
    );
    law_search_in_range(seq![], items, table);
}

/// Applications and pass entries go by their name, the whole of it, on their row and in the
/// record of launches; and launches of clipboard items are not recorded.
pub proof fn law_item_names(name: Seq<char>, path: Seq<char>, clip: ClipModel)
    ensures
        item_name(ItemModel::App { name, path }) == name,
        item_name(ItemModel::Pass { name }) == name,
        item_key(ItemModel::App { name, path }) == name,
        item_key(ItemModel::Pass { name }) == name,
        item_key(ItemModel::Clip(clip)).len() == 0,
{
}

/// The positions ascend within a text, and the characters there match those of a pattern.
pub open spec fn is_embedding(p: Seq<int>, text: Seq<char>, pattern: Seq<char>, case: bool) -> bool {
    &&& p.len() == pattern.len()
    &&& forall|i: int| 0 <= i < p.len() ==> 0 <= #[trigger] p[i] < text.len()
    &&& forall|i: int, j: int| 0 <= i < j < p.len() ==> p[i] < p[j]
    &&& forall|i: int|
        0 <= i < p.len() ==> {
            let c = text[#[trigger] p[i]];
            let d = pattern[i];
            ||| c == d
            ||| !case && c as int + 32 == d as int && 65 <= c as int <= 90
            ||| !case && d as int + 32 == c as int && 65 <= d as int <= 90
        }
}

/// A pattern matches a text exactly where its characters stand in the text in ascending
/// positions. Case counts once the pattern holds an ASCII capital; otherwise an ASCII letter
/// matches its capital too.
pub proof fn law_fuzzy_matches(text: Seq<char>, pattern: Seq<char>, case: bool)
    requires
        case == exists|i: int|
            0 <= i < pattern.len() && 65 <= #[trigger] pattern[i] as int <= 90,
    ensures
        fuzzy_matches(text, pattern) == exists|p: Seq<int>|
            #[trigger] is_embedding(p, text, pattern, case),
{
    assert(case == case_counts(pattern));
    if fuzzy_matches(text, pattern) {
        let p = lemma_embeds(text, pattern, case);
    }
    if exists|p: Seq<int>| #[trigger] is_embedding(p, text, pattern, case) {
        let p = choose|p: Seq<int>| #[trigger] is_embedding(p, text, pattern, case);
        lemma_embedded(p, text, pattern, case);
    }
}

/// Two characters that match are equal, or one is the ASCII capital of the other.
proof fn lemma_chars_match(a: char, b: char, case: bool)
    ensures
        chars_match(a, b, case) == {
            ||| a == b
            ||| !case && a as int + 32 == b as int && 65 <= a as int <= 90
            ||| !case && b as int + 32 == a as int && 65 <= b as int <= 90
        },
{
}

proof fn lemma_embeds(text: Seq<char>, pattern: Seq<char>, case: bool) -> (p: Seq<int>)
    requires
        in_sequence(text, pattern, case),
    ensures
        is_embedding(p, text, pattern, case),
    decreases text.len(),
{
    if pattern.len() == 0 {
        Seq::empty()
    } else {
        let hit = chars_match(text[0], pattern[0], case);
        let q = if hit {
            lemma_embeds(text.skip(1), pattern.skip(1), case)
        } else {
            lemma_embeds(text.skip(1), pattern, case)
        };
        lemma_chars_match(text[0], pattern[0], case);
        let shifted = Seq::new(q.len(), |i: int| q[i] + 1);
        let p = if hit {
            seq![0] + shifted
        } else {
            shifted
        };
        assert forall|i: int| 0 <= i < p.len() implies 0 <= #[trigger] p[i] < text.len() && {
            let c = text[p[i]];
            let d = pattern[i];
            ||| c == d
            ||| !case && c as int + 32 == d as int && 65 <= c as int <= 90
            ||| !case && d as int + 32 == c as int && 65 <= d as int <= 90
        } by {
            if !hit {
                assert(p[i] == q[i] + 1);
                assert(text.skip(1)[q[i]] == text[p[i]]);
            } else if i > 0 {
                assert(p[i] == q[i - 1] + 1);
                assert(text.skip(1)[q[i - 1]] == text[p[i]]);
                assert(pattern.skip(1)[i - 1] == pattern[i]);
            }
        }
        assert forall|i: int, j: int| 0 <= i < j < p.len() implies p[i] < p[j] by {
            if !hit {
                assert(q[i] < q[j]);
            } else if i > 0 {
                assert(q[i - 1] < q[j - 1]);
            } else {
                assert(q[j - 1] >= 0);
            }
        }
        p
    }
}

proof fn lemma_embedded(p: Seq<int>, text: Seq<char>, pattern: Seq<char>, case: bool)
    requires
        is_embedding(p, text, pattern, case),
    ensures
        in_sequence(text, pattern, case),
    decreases text.len(),
{
    if pattern.len() > 0 {
        assert(0 <= p[0] < text.len());
        let hit = chars_match(text[0], pattern[0], case);
        lemma_chars_match(text[0], pattern[0], case);
        let from: int = if hit {
            1
        } else {
            0
        };
        let rest = pattern.skip(from);
        assert(!hit ==> rest =~= pattern);
        let q = Seq::new(rest.len(), |i: int| p[i + from] - 1);
        assert forall|i: int| 0 <= i < q.len() implies 0 <= #[trigger] q[i] < text.skip(1).len()
            && {
            let c = text.skip(1)[q[i]];
            let d = rest[i];
            ||| c == d
            ||| !case && c as int + 32 == d as int && 65 <= c as int <= 90
            ||| !case && d as int + 32 == c as int && 65 <= d as int <= 90
        } by {
            let k = i + from;
            assert(0 <= p[k] < text.len());
            if k > 0 {
                assert(p[0] < p[k]);
            } else {
                assert(p[0] != 0) by {
                    assert(rest[0] == pattern[0]);
                }
            }
            assert(text.skip(1)[q[i]] == text[p[k]]);
            assert(rest[i] == pattern[k]);
        }
        assert forall|i: int, j: int| 0 <= i < j < q.len() implies q[i] < q[j] by {
            assert(p[i + from] < p[j + from]);
        }
        lemma_embedded(q, text.skip(1), rest, case);
    }
}

/// The command of a text is the text between the white space around it; there is none where
/// there is nothing but white space.
pub proof fn law_command(before: Seq<char>, core: Seq<char>, after: Seq<char>)
    requires
        crate::text::all_white(before),
        crate::text::all_white(after),
        core.len() > 0,
        !is_white(core[0]) && !is_white(core.last()),
    ensures
        command_of(before + core + after) == Some(core),
        command_of(before) is None,
{
    crate::text::law_trimmed(before, core, after);
    crate::text::law_trimmed(before, Seq::empty(), Seq::empty());
    assert(before + Seq::<char>::empty() + Seq::<char>::empty() =~= before);
}

/// A name is ranked by the whole of it, up to sixteen million characters and more, and by its
/// start where it is longer.
pub proof fn law_rankable(name: Seq<char>)
    ensures
        name.len() <= 16 * 1024 * 1024 ==> rankable(name) == name,
        name.len() > 16 * 1024 * 1024 ==> rankable(name) == name.subrange(0, 16777216),
{
    if name.len() > 16 * 1024 * 1024 {
        assert(rankable(name) =~= name.subrange(0, 16777216));
    }
}

/// An item that was never launched has no frecency.
pub proof fn law_no_frecency()
    ensures
        no_frecency().order == 0,
        no_frecency().bonus == 0,
{
}

/// What stands for an item holds the whole of its name, its path and its content.
pub proof fn law_item_view(app: AppEntry, clip: ClipboardEntry, entry: PassEntry)
    ensures
        LaunchItem::App(app)@ == (ItemModel::App { name: app.name@, path: app.path@ }),
        LaunchItem::Pass(entry)@ == (ItemModel::Pass { name: entry.name@ }),
        LaunchItem::Clip(clip)@ == ItemModel::Clip(clip@),
        clip@.captured_at == clip.captured_at,
        clip@.content == clip.content@,
{
}

} // verus!
