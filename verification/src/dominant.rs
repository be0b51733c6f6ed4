//! The dominant colours of a tile: its colours ranked by frequency, and the
//! at most two representatives picked from the head of that ranking.

use vstd::prelude::*;
use crate::color::{adjust_color, is_distinct, lemma_distance_symmetric, Color};
use crate::glyph::ColorPair;
use crate::tally::{
    count_colors, distinct_colors, lemma_distinct_colors, lemma_occurrences, lemma_tally,
    occurrences, tally, ColorCount,
};

verus! {

/// The most representatives that a tile can have.
pub const MAX_REPRESENTATIVES: usize = 2;

/// One representative colour of a tile, with the way it was chosen.
#[derive(Clone, Copy, Debug, PartialEq, Eq, Structural)]
pub enum Pick {
    /// A colour of the tile, taken as it is.
    Raw(Color),
    /// A colour of the tile that lies close to an earlier representative:
    /// it is shown in its lightened variant.
    Lightened(Color),
}

impl Pick {
    /// The colour of the tile that this representative goes back to.
    pub open spec fn source(self) -> Color {
        match self {
            Pick::Raw(c) => c,
            Pick::Lightened(c) => c,
        }
    }

    /// The colour that this representative shows.
    pub open spec fn shown(self) -> Color {
        match self {
            Pick::Raw(c) => c,
            Pick::Lightened(c) => c.lightened(),
        }
    }

    /// The colour that this representative shows.
    pub fn color(self) -> (c: Color)
        ensures
            c == self.shown(),
    {
        match self {
            Pick::Raw(c) => c,
            Pick::Lightened(c) => adjust_color(c),
        }
    }
}

/// How many entries at the head of `t` are counted at least `count` times.
pub open spec fn slot(t: Seq<ColorCount>, count: usize) -> nat
    decreases t.len(),
{
    if t.len() == 0 || t[0].count < count {
        0
    } else {
        1 + slot(t.drop_first(), count)
    }
}

/// The entries of `s` by descending count; entries with equal counts keep
/// the order they have in `s`. Each entry in turn is placed behind the
/// entries counted at least as often as itself.
pub open spec fn ranked(s: Seq<ColorCount>) -> Seq<ColorCount>
    decreases s.len(),
{
    if s.len() == 0 {
        s
    } else {
        let before = ranked(s.drop_last());
        before.insert(slot(before, s.last().count) as int, s.last())
    }
}

/// The colours of a list of counts, in its order.
pub open spec fn colors_of(t: Seq<ColorCount>) -> Seq<Color> {
    Seq::new(t.len(), |i: int| t[i].color)
}

/// The representatives picked from `candidates`, which come in the order of
/// their rank. The first candidate is taken as it is. The second is taken as
/// it is if it is distinct from the first, and lightened if it lies close
/// to it. No further candidate is looked at.
pub open spec fn representatives(candidates: Seq<Color>) -> Seq<Pick> {
    if candidates.len() == 0 {
        Seq::empty()
    } else if candidates.len() == 1 {
        seq![Pick::Raw(candidates[0])]
    } else if candidates[1].distinct_from(candidates[0]) {
        seq![Pick::Raw(candidates[0]), Pick::Raw(candidates[1])]
    } else {
        seq![Pick::Raw(candidates[0]), Pick::Lightened(candidates[1])]
    }
}

/// The two colours that a set of representatives stands for: the first
/// representative, or opaque white if there is none, and the second, or the
/// lightened first if there is no second.
pub open spec fn pair_of(picks: Seq<Pick>) -> ColorPair {
    let top = if picks.len() > 0 {
        picks[0].shown()
    } else {
        Color::white()
    };
    let second = if picks.len() > 1 {
        picks[1].shown()
    } else {
        top.lightened()
    };
    ColorPair { top, second }
}

/// The two colours that stand for a tile with the given pixels.
pub open spec fn dominant_pair(pixels: Seq<Color>) -> ColorPair {
    pair_of(representatives(colors_of(ranked(tally(pixels)))))
}

/// A ranking has as many entries as the list that was ranked.
pub proof fn lemma_ranked_len(s: Seq<ColorCount>)
    ensures
        ranked(s).len() == s.len(),
    decreases s.len(),
{
    if s.len() > 0 {
        lemma_ranked_len(s.drop_last());
        lemma_slot_bound(ranked(s.drop_last()), s.last().count);
    }
}

/// `slot` counts entries of the list: it is at most the list's length, the
/// entries before it are counted at least `count` times, and the entry at
/// it, if there is one, is counted less often.
pub proof fn lemma_slot_bound(t: Seq<ColorCount>, count: usize)
    ensures
        slot(t, count) <= t.len(),
        forall|k: int| 0 <= k < slot(t, count) ==> (#[trigger] t[k]).count >= count,
        slot(t, count) < t.len() ==> t[slot(t, count) as int].count < count,
    decreases t.len(),
{
    if t.len() > 0 && t[0].count >= count {
        let rest = t.drop_first();
        lemma_slot_bound(rest, count);
        assert forall|k: int| 0 <= k < slot(t, count) implies (#[trigger] t[k]).count
            >= count by {
            if k > 0 {
                assert(t[k] == rest[k - 1]);
            }
        }
        if slot(t, count) < t.len() {
            assert(t[slot(t, count) as int] == rest[slot(rest, count) as int]);
        }
    }
}

/// A ranking is in descending order of counts.
pub proof fn lemma_ranked_descending(s: Seq<ColorCount>)
    ensures
        forall|i: int, j: int|
            0 <= i <= j < ranked(s).len() ==> (#[trigger] ranked(s)[i]).count >= (
            #[trigger] ranked(s)[j]).count,
    decreases s.len(),
{
    if s.len() > 0 {
        let before = ranked(s.drop_last());
        let entry = s.last();
        let k = slot(before, entry.count) as int;
        lemma_ranked_descending(s.drop_last());
        lemma_slot_bound(before, entry.count);
        before.insert_ensures(k, entry);
        let after = ranked(s);
        assert forall|i: int, j: int| 0 <= i <= j < after.len() implies (#[trigger] after[i]).count
            >= (#[trigger] after[j]).count by {
            if i < k {
                assert(after[i] == before[i]);
            } else if i > k {
                assert(after[i] == before[i - 1]);
            }
            if j < k {
                assert(after[j] == before[j]);
            } else if j > k {
                assert(after[j] == before[j - 1]);
                assert(before[k].count >= before[j - 1].count);
            }
        }
    }
}

/// A ranking holds the entries that were ranked, each as often as it was
/// there.
pub proof fn lemma_ranked_permutation(s: Seq<ColorCount>)
    ensures
        ranked(s).to_multiset() == s.to_multiset(),
    decreases s.len(),
{
    if s.len() > 0 {
        let front = s.drop_last();
        let before = ranked(front);
        let entry = s.last();
        let k = slot(before, entry.count) as int;
        lemma_ranked_permutation(front);
        lemma_slot_bound(before, entry.count);
        let head = before.subrange(0, k);
        let tail = before.subrange(k, before.len() as int);
        assert(before =~= head + tail);
        vstd::seq_lib::lemma_multiset_commutative(head, tail);
        vstd::seq_lib::lemma_multiset_commutative(head.push(entry), tail);
        head.to_multiset_ensures();
        front.to_multiset_ensures();
        assert(s =~= front.push(entry));
        assert(ranked(s).to_multiset() =~= s.to_multiset());
    }
}

/// The place that entry `i` of `s` takes in the ranking of `s`.
pub open spec fn rank_of(s: Seq<ColorCount>, i: int) -> int
    decreases s.len(),
{
    if s.len() == 0 {
        0
    } else {
        let place = slot(ranked(s.drop_last()), s.last().count) as int;
        if i == s.len() - 1 {
            place
        } else {
            let before = rank_of(s.drop_last(), i);
            if before < place {
                before
            } else {
                before + 1
            }
        }
    }
}

/// Whether entry `a`, which stands at `i`, ranks before entry `b`, which
/// stands at `j`: it is counted more often, or as often and stands first.
pub open spec fn outranks(a: ColorCount, i: int, b: ColorCount, j: int) -> bool {
    a.count > b.count || (a.count == b.count && i < j)
}

/// A ranking is the stable sort by descending count: every entry has its
/// place in it, and of two entries the one that is counted more often
/// comes first, or, where both are counted as often, the one that stood
/// first.
pub proof fn lemma_rank_of(s: Seq<ColorCount>)
    ensures
        forall|i: int|
            0 <= i < s.len() ==> 0 <= #[trigger] rank_of(s, i) < s.len() && ranked(s)[rank_of(
                s,
                i,
            )] == s[i],
        forall|i: int, j: int|
            0 <= i < s.len() && 0 <= j < s.len() && i != j ==> (#[trigger] rank_of(s, i)
                < #[trigger] rank_of(s, j) <==> outranks(s[i], i, s[j], j)),
    decreases s.len(),
{
    if s.len() > 0 {
        let front = s.drop_last();
        let before = ranked(front);
        let entry = s.last();
        let k = slot(before, entry.count) as int;
        lemma_rank_of(front);
        lemma_ranked_len(front);
        lemma_ranked_len(s);
        lemma_ranked_descending(front);
        lemma_slot_bound(before, entry.count);
        before.insert_ensures(k, entry);
        assert forall|m: int| k <= m < before.len() implies (#[trigger] before[m]).count
            < entry.count by {
            assert(before[k].count >= before[m].count);
        }
        assert forall|i: int| 0 <= i < s.len() implies 0 <= #[trigger] rank_of(s, i) < s.len()
            && ranked(s)[rank_of(s, i)] == s[i] by {
            if i < s.len() - 1 {
                let p = rank_of(front, i);
                assert(before[p] == front[i]);
                if p >= k {
                    assert(ranked(s)[p + 1] == before[p]);
                }
            }
        }
        assert forall|i: int, j: int| 0 <= i < s.len() && 0 <= j < s.len() && i != j implies (
        #[trigger] rank_of(s, i) < #[trigger] rank_of(s, j) <==> outranks(s[i], i, s[j], j)) by {
            if i < s.len() - 1 {
                assert(before[rank_of(front, i)] == front[i]);
            }
            if j < s.len() - 1 {
                assert(before[rank_of(front, j)] == front[j]);
            }
        }
    }
}

/// Where in `s` the entry stands that takes place `p` in the ranking of
/// `s`.
pub open spec fn ranked_from(s: Seq<ColorCount>, p: int) -> int
    decreases s.len(),
{
    if s.len() == 0 {
        0
    } else {
        let place = slot(ranked(s.drop_last()), s.last().count) as int;
        if p == place {
            s.len() - 1
        } else if p < place {
            ranked_from(s.drop_last(), p)
        } else {
            ranked_from(s.drop_last(), p - 1)
        }
    }
}

/// Every place of a ranking is taken by an entry of `s`: `ranked_from`
/// undoes `rank_of`.
pub proof fn lemma_ranked_from(s: Seq<ColorCount>)
    ensures
        forall|p: int|
            0 <= p < s.len() ==> 0 <= #[trigger] ranked_from(s, p) < s.len() && rank_of(
                s,
                ranked_from(s, p),
            ) == p && ranked(s)[p] == s[ranked_from(s, p)],
    decreases s.len(),
{
    if s.len() > 0 {
        let front = s.drop_last();
        let k = slot(ranked(front), s.last().count) as int;
        lemma_ranked_from(front);
        lemma_rank_of(s);
        lemma_slot_bound(ranked(front), s.last().count);
        lemma_ranked_len(front);
        assert forall|p: int| 0 <= p < s.len() implies 0 <= #[trigger] ranked_from(s, p) < s.len()
            && rank_of(s, ranked_from(s, p)) == p && ranked(s)[p] == s[ranked_from(s, p)] by {
            if p < k {
                assert(rank_of(front, ranked_from(front, p)) == p);
            } else if p > k {
                assert(rank_of(front, ranked_from(front, p - 1)) == p - 1);
            }
        }
    }
}

/// The head of a ranking is the first of the entries with the greatest
/// count: no entry is counted more often, and the entries that stand
/// before it in `s` are counted less often.
pub proof fn lemma_ranked_head(s: Seq<ColorCount>) -> (at: int)
    requires
        s.len() > 0,
    ensures
        0 <= at < s.len(),
        ranked(s).len() == s.len(),
        ranked(s)[0] == s[at],
        forall|j: int| 0 <= j < s.len() ==> (#[trigger] s[j]).count <= s[at].count,
        forall|j: int| 0 <= j < at ==> (#[trigger] s[j]).count < s[at].count,
    decreases s.len(),
{
    let front = s.drop_last();
    let before = ranked(front);
    let entry = s.last();
    let k = slot(before, entry.count) as int;
    lemma_ranked_len(s);
    lemma_ranked_len(front);
    lemma_slot_bound(before, entry.count);
    before.insert_ensures(k, entry);
    if front.len() == 0 {
        s.len() - 1
    } else {
        let earlier = lemma_ranked_head(front);
        assert forall|j: int| 0 <= j < front.len() implies #[trigger] s[j] == front[j] by {}
        if k == 0 {
            assert(before[0].count < entry.count);
            s.len() - 1
        } else {
            assert(before[0].count >= entry.count);
            earlier
        }
    }
}

/// The first colour of a tile is one of its most frequent colours, and
/// among those the one that appears first.
pub proof fn lemma_top_is_most_frequent(pixels: Seq<Color>) -> (at: int)
    requires
        0 < pixels.len() <= usize::MAX,
    ensures
        0 <= at < tally(pixels).len(),
        dominant_pair(pixels).top == tally(pixels)[at].color,
        pixels.contains(dominant_pair(pixels).top),
        forall|c: Color| #[trigger]
            occurrences(pixels, c) <= occurrences(pixels, dominant_pair(pixels).top),
        forall|j: int|
            0 <= j < at ==> occurrences(pixels, (#[trigger] tally(pixels)[j]).color) < occurrences(
                pixels,
                dominant_pair(pixels).top,
            ),
{
    let counts = tally(pixels);
    lemma_tally(pixels);
    lemma_distinct_colors(pixels);
    assert(pixels.contains(pixels[0]));
    assert(distinct_colors(pixels).contains(pixels[0]));
    let at = lemma_ranked_head(counts);
    let top = dominant_pair(pixels).top;
    assert(colors_of(ranked(counts))[0] == counts[at].color);
    assert(top == counts[at].color);
    assert forall|c: Color| #[trigger] occurrences(pixels, c) <= occurrences(pixels, top) by {
        lemma_occurrences(pixels, c);
        if pixels.contains(c) {
            let i = choose|i: int| 0 <= i < counts.len() && (#[trigger] counts[i]).color == c;
            assert(counts[i].count <= counts[at].count);
        }
    }
    at
}

/// The second colour of a tile with two colours or more goes back to the
/// runner-up: the colour that is most frequent among all but the first,
/// and among equally frequent ones appears first. The second colour is the
/// runner-up itself where that is distinct from the first colour, and its
/// lightened variant where it lies close to it.
pub proof fn lemma_second_is_runner_up(pixels: Seq<Color>) -> (at: int)
    requires
        pixels.len() <= usize::MAX,
        tally(pixels).len() >= 2,
    ensures
        0 <= at < tally(pixels).len(),
        pixels.contains(tally(pixels)[at].color),
        tally(pixels)[at].color != dominant_pair(pixels).top,
        forall|c: Color|
            c != dominant_pair(pixels).top ==> #[trigger] occurrences(pixels, c) <= occurrences(
                pixels,
                tally(pixels)[at].color,
            ),
        forall|j: int|
            0 <= j < at && (#[trigger] tally(pixels)[j]).color != dominant_pair(pixels).top
                ==> occurrences(pixels, tally(pixels)[j].color) < occurrences(
                pixels,
                tally(pixels)[at].color,
            ),
        dominant_pair(pixels).second == (if tally(pixels)[at].color.distinct_from(
            dominant_pair(pixels).top,
        ) {
            tally(pixels)[at].color
        } else {
            tally(pixels)[at].color.lightened()
        }),
{
    let counts = tally(pixels);
    lemma_tally(pixels);
    lemma_rank_of(counts);
    lemma_ranked_from(counts);
    lemma_ranked_len(counts);
    let first = ranked_from(counts, 0);
    let at = ranked_from(counts, 1);
    let top = dominant_pair(pixels).top;
    let runner = counts[at].color;
    assert(colors_of(ranked(counts))[0] == counts[first].color);
    assert(colors_of(ranked(counts))[1] == runner);
    assert(first != at);
    assert forall|c: Color| c != top implies #[trigger] occurrences(pixels, c) <= occurrences(
        pixels,
        runner,
    ) by {
        lemma_occurrences(pixels, c);
        if pixels.contains(c) {
            let i = choose|i: int| 0 <= i < counts.len() && (#[trigger] counts[i]).color == c;
            if i != at {
                assert(rank_of(counts, i) != 0);
                assert(rank_of(counts, at) < rank_of(counts, i));
            }
        }
    }
    assert forall|j: int| 0 <= j < at && (#[trigger] counts[j]).color != top implies occurrences(
        pixels,
        counts[j].color,
    ) < occurrences(pixels, runner) by {
        assert(rank_of(counts, j) != 0);
        assert(rank_of(counts, at) < rank_of(counts, j));
    }
    at
}

/// A tile of a single colour shows that colour and its lightened variant.
pub proof fn lemma_single_color(pixels: Seq<Color>)
    requires
        0 < pixels.len() <= usize::MAX,
        forall|i: int| 0 <= i < pixels.len() ==> #[trigger] pixels[i] == pixels[0],
    ensures
        dominant_pair(pixels) == (ColorPair { top: pixels[0], second: pixels[0].lightened() }),
{
    let counts = tally(pixels);
    lemma_tally(pixels);
    lemma_distinct_colors(pixels);
    assert(pixels.contains(pixels[0]));
    assert(counts.len() == 1) by {
        if counts.len() >= 2 {
            assert(pixels.contains(counts[0].color));
            assert(pixels.contains(counts[1].color));
        }
    }
    assert(counts[0].color == pixels[0]) by {
        assert(pixels.contains(counts[0].color));
    }
    lemma_ranked_len(counts);
    let at = lemma_ranked_head(counts);
    assert(colors_of(ranked(counts))[0] == pixels[0]);
}

/// Of two colours that lie close to each other at most one is a
/// representative as it is: where one is, the other, if it is picked at all,
/// is picked in its lightened variant.
pub proof fn lemma_close_colors_share_one_raw(candidates: Seq<Color>, i: int, j: int)
    requires
        0 <= i < representatives(candidates).len(),
        0 <= j < representatives(candidates).len(),
        i != j,
        !representatives(candidates)[i].source().distinct_from(
            representatives(candidates)[j].source(),
        ),
    ensures
        !(representatives(candidates)[i] is Raw && representatives(candidates)[j] is Raw),
        representatives(candidates)[i] is Raw ==> representatives(candidates)[j]
            == Pick::Lightened(representatives(candidates)[j].source()),
{
    lemma_distance_symmetric(candidates[0], candidates[1]);
}

/// There are never more than two representatives, there is one wherever
/// there is a candidate, and each goes back to the candidate of its rank.
pub proof fn lemma_representatives(candidates: Seq<Color>)
    ensures
        representatives(candidates).len() <= MAX_REPRESENTATIVES,
        representatives(candidates).len() <= candidates.len(),
        candidates.len() > 0 ==> representatives(candidates).len() >= 1,
        candidates.len() > 0 ==> representatives(candidates)[0] == Pick::Raw(candidates[0]),
        forall|k: int|
            0 <= k < representatives(candidates).len() ==> (#[trigger] representatives(
                candidates,
            )[k]).source() == candidates[k],
{
}

/// Where an entry counted `count` times goes in the ranking `t`.
fn find_slot(t: &Vec<ColorCount>, count: usize) -> (k: usize)
    ensures
        k == slot(t@, count),
        k <= t@.len(),
{
    let mut k: usize = 0;
    assert(t@.skip(0) =~= t@);
    while k < t.len() && t[k].count >= count
        invariant
            k <= t@.len(),
            slot(t@, count) == k + slot(t@.skip(k as int), count),
        decreases t@.len() - k,
    {
        proof {
            let rest = t@.skip(k as int);
            assert(rest[0] == t@[k as int]);
            assert(rest.drop_first() =~= t@.skip(k + 1));
        }
        k += 1;
    }
    proof {
        let rest = t@.skip(k as int);
        if k < t@.len() {
            assert(rest[0] == t@[k as int]);
        }
    }
    k
}

/// Ranks the counts: most frequent first, and among equally frequent
/// colours the one that stands first in `counts`.
pub fn rank_by_count(counts: &Vec<ColorCount>) -> (ranking: Vec<ColorCount>)
    ensures
        ranking@ == ranked(counts@),
{
    let mut ranking: Vec<ColorCount> = Vec::new();
    let mut i: usize = 0;
    while i < counts.len()
        invariant
            i <= counts@.len(),
            ranking@ == ranked(counts@.take(i as int)),
        decreases counts@.len() - i,
    {
        let entry = counts[i];
        let k = find_slot(&ranking, entry.count);
        proof {
            let next = counts@.take(i + 1);
            assert(next.drop_last() =~= counts@.take(i as int));
            assert(next.last() == entry);
        }
        ranking.insert(k, entry);
        i += 1;
    }
    assert(counts@.take(i as int) =~= counts@);
    ranking
}

/// Whether `color` is distinct from the colour of every pick.
fn distinct_from_all(picks: &Vec<Pick>, color: Color) -> (all: bool)
    ensures
        all <==> forall|k: int|
            0 <= k < picks@.len() ==> color.distinct_from((#[trigger] picks@[k]).shown()),
{
    let mut k: usize = 0;
    while k < picks.len()
        invariant
            k <= picks@.len(),
            forall|m: int| 0 <= m < k ==> color.distinct_from((#[trigger] picks@[m]).shown()),
        decreases picks@.len() - k,
    {
        if !is_distinct(color, picks[k].color()) {
            return false;
        }
        k += 1;
    }
    true
}

/// Picks the representatives from a ranking. Walking the ranking from its
/// head, a colour is taken as it is if it is distinct from every
/// representative picked so far, and lightened otherwise; the walk ends as
/// soon as there are two representatives.
pub fn select_representatives(ranking: &Vec<ColorCount>) -> (picks: Vec<Pick>)
    ensures
        picks@ == representatives(colors_of(ranking@)),
        picks@.len() <= MAX_REPRESENTATIVES,
        ranking@.len() > 0 ==> picks@.len() >= 1,
{
    let ghost candidates = colors_of(ranking@);
    let mut picks: Vec<Pick> = Vec::new();
    let mut i: usize = 0;
    while i < ranking.len() && picks.len() < MAX_REPRESENTATIVES
        invariant
            i <= ranking@.len(),
            candidates == colors_of(ranking@),
            picks@.len() == i,
            i <= MAX_REPRESENTATIVES,
            picks@ == representatives(candidates.take(i as int)),
        decreases ranking@.len() - i,
    {
        let color = ranking[i].color;
        proof {
            assert(candidates[i as int] == color);
            if i == 1 {
                assert(candidates.take(1)[0] == candidates[0]);
                assert(picks@[0] == Pick::Raw(candidates[0]));
            }
        }
        if distinct_from_all(&picks, color) {
            picks.push(Pick::Raw(color));
        } else {
            picks.push(Pick::Lightened(color));
        }
        proof {
            let seen = candidates.take(i + 1);
            assert(seen[i as int] == color);
            if i == 1 {
                assert(seen[0] == candidates[0]);
            }
            assert(picks@ =~= representatives(seen));
        }
        i += 1;
    }
    proof {
        if i < ranking@.len() {
            assert(candidates.take(i as int)[0] == candidates[0]);
            assert(candidates.take(i as int)[1] == candidates[1]);
            assert(picks@ =~= representatives(candidates));
        } else {
            assert(candidates.take(i as int) =~= candidates);
        }
    }
    picks
}

/// The two colours that a set of representatives stands for.
pub fn color_pair(picks: &Vec<Pick>) -> (pair: ColorPair)
    ensures
        pair == pair_of(picks@),
{
    let top = if picks.len() > 0 {
        picks[0].color()
    } else {
        Color::opaque_white()
    };
    let second = if picks.len() > 1 {
        picks[1].color()
    } else {
        adjust_color(top)
    };
    ColorPair { top, second }
}

/// The two colours that stand for a tile with the given pixels: its most
/// frequent colour, and its second most frequent one, lightened where it
/// lies close to the first. Among equally frequent colours the one that
/// appears first in `pixels` ranks first. A tile of a single colour gets the
/// lightened variant of that colour as its second.
pub fn dominant_colors(pixels: &Vec<Color>) -> (pair: ColorPair)
    ensures
        pair == dominant_pair(pixels@),
{
    let counts = count_colors(pixels);
    let ranking = rank_by_count(&counts);
    let picks = select_representatives(&ranking);
    color_pair(&picks)
}

} // verus!
