//! Counting colours: how often each distinct colour occurs among the pixels
//! of a tile, in the order in which the colours first appear.

use vstd::prelude::*;
use crate::color::Color;

verus! {

/// A colour and the number of pixels that show it.
#[derive(Clone, Copy, Debug, PartialEq, Eq, Structural)]
pub struct ColorCount {
    pub color: Color,
    pub count: usize,
}

/// How many entries of `s` equal `c`.
pub open spec fn occurrences(s: Seq<Color>, c: Color) -> nat
    decreases s.len(),
{
    if s.len() == 0 {
        0
    } else {
        occurrences(s.drop_last(), c) + if s.last() == c {
            1nat
        } else {
            0nat
        }
    }
}

/// The colours of `s`, each once, in the order of their first appearance.
pub open spec fn distinct_colors(s: Seq<Color>) -> Seq<Color>
    decreases s.len(),
{
    if s.len() == 0 {
        Seq::empty()
    } else {
        let earlier = distinct_colors(s.drop_last());
        if earlier.contains(s.last()) {
            earlier
        } else {
            earlier.push(s.last())
        }
    }
}

/// The distinct colours of `s` in the order of their first appearance, each
/// with the number of its occurrences.
pub open spec fn tally(s: Seq<Color>) -> Seq<ColorCount> {
    Seq::new(
        distinct_colors(s).len(),
        |i: int|
            ColorCount {
                color: distinct_colors(s)[i],
                count: occurrences(s, distinct_colors(s)[i]) as usize,
            },
    )
}

/// No colour occurs more often than there are pixels, and exactly the
/// colours that are present occur at all.
pub proof fn lemma_occurrences(s: Seq<Color>, c: Color)
    ensures
        occurrences(s, c) <= s.len(),
        occurrences(s, c) > 0 <==> s.contains(c),
    decreases s.len(),
{
    if s.len() > 0 {
        let front = s.drop_last();
        lemma_occurrences(front, c);
        if s.last() == c {
            assert(s[s.len() - 1] == c);
        } else if front.contains(c) {
            let k = choose|k: int| 0 <= k < front.len() && front[k] == c;
            assert(s[k] == c);
        } else if s.contains(c) {
            let k = choose|k: int| 0 <= k < s.len() && s[k] == c;
            assert(front[k] == c);
        }
    }
}

/// `distinct_colors` lists exactly the colours that are present, none of
/// them twice.
pub proof fn lemma_distinct_colors(s: Seq<Color>)
    ensures
        distinct_colors(s).no_duplicates(),
        distinct_colors(s).len() <= s.len(),
        forall|c: Color| distinct_colors(s).contains(c) <==> s.contains(c),
    decreases s.len(),
{
    if s.len() > 0 {
        let front = s.drop_last();
        let earlier = distinct_colors(front);
        lemma_distinct_colors(front);
        assert forall|c: Color| distinct_colors(s).contains(c) <==> s.contains(c) by {
            if s.contains(c) {
                let k = choose|k: int| 0 <= k < s.len() && s[k] == c;
                if k < front.len() {
                    assert(front[k] == c);
                    assert(front.contains(c));
                    assert(earlier.contains(c));
                    let m = choose|m: int| 0 <= m < earlier.len() && earlier[m] == c;
                    assert(distinct_colors(s)[m] == c);
                } else if !earlier.contains(c) {
                    assert(distinct_colors(s)[earlier.len() as int] == c);
                }
            }
            if distinct_colors(s).contains(c) {
                let m = choose|m: int| 0 <= m < distinct_colors(s).len() && distinct_colors(s)[m] == c;
                if m < earlier.len() {
                    assert(earlier[m] == c);
                    assert(earlier.contains(c));
                    assert(front.contains(c));
                    let k = choose|k: int| 0 <= k < front.len() && front[k] == c;
                    assert(s[k] == c);
                } else {
                    assert(s[s.len() - 1] == c);
                }
            }
        }
    }
}

/// The counts of a tally are the numbers of occurrences, each at least one,
/// and no colour is counted twice.
pub proof fn lemma_tally(s: Seq<Color>)
    requires
        s.len() <= usize::MAX,
    ensures
        tally(s).len() == distinct_colors(s).len(),
        forall|i: int|
            0 <= i < tally(s).len() ==> (#[trigger] tally(s)[i]).count == occurrences(
                s,
                tally(s)[i].color,
            ) && tally(s)[i].count >= 1 && s.contains(tally(s)[i].color),
        forall|i: int, j: int|
            0 <= i < j < tally(s).len() ==> (#[trigger] tally(s)[i]).color != (
            #[trigger] tally(s)[j]).color,
        forall|c: Color|
            s.contains(c) ==> exists|i: int|
                0 <= i < tally(s).len() && (#[trigger] tally(s)[i]).color == c,
{
    lemma_distinct_colors(s);
    let d = distinct_colors(s);
    assert forall|i: int| 0 <= i < tally(s).len() implies (#[trigger] tally(s)[i]).count
        == occurrences(s, tally(s)[i].color) && tally(s)[i].count >= 1 && s.contains(
        tally(s)[i].color,
    ) by {
        lemma_occurrences(s, d[i]);
        assert(d.contains(d[i]));
    }
    assert forall|c: Color| s.contains(c) implies exists|i: int|
        0 <= i < tally(s).len() && (#[trigger] tally(s)[i]).color == c by {
        assert(d.contains(c));
        let m = choose|m: int| 0 <= m < d.len() && d[m] == c;
        assert(tally(s)[m].color == c);
    }
}

/// Where `color` stands in `counts`, if it is counted there.
fn position_of(counts: &Vec<ColorCount>, color: Color) -> (found: Option<usize>)
    ensures
        match found {
            Some(k) => k < counts@.len() && counts@[k as int].color == color,
            None => forall|k: int| 0 <= k < counts@.len() ==> counts@[k].color != color,
        },
{
    let mut k: usize = 0;
    while k < counts.len()
        invariant
            k <= counts@.len(),
            forall|m: int| 0 <= m < k ==> counts@[m].color != color,
        decreases counts@.len() - k,
    {
        if counts[k].color == color {
            return Some(k);
        }
        k += 1;
    }
    None
}

/// Counts the colours of `pixels`: one entry for each distinct colour, in
/// the order in which the colours first appear.
pub fn count_colors(pixels: &Vec<Color>) -> (counts: Vec<ColorCount>)
    ensures
        counts@ == tally(pixels@),
{
    let mut counts: Vec<ColorCount> = Vec::new();
    let mut i: usize = 0;
    while i < pixels.len()
        invariant
            i <= pixels@.len(),
            counts@ == tally(pixels@.take(i as int)),
        decreases pixels@.len() - i,
    {
        let color = pixels[i];
        let ghost seen = pixels@.take(i as int);
        let ghost next = pixels@.take(i + 1);
        proof {
            assert(next.drop_last() =~= seen);
            assert(next.last() == color);
            lemma_distinct_colors(seen);
            lemma_occurrences(seen, color);
            assert forall|c: Color| occurrences(next, c) <= i + 1 by {
                lemma_occurrences(next, c);
            }
        }
        match position_of(&counts, color) {
            Some(k) => {
                let entry = counts[k];
                proof {
                    assert(distinct_colors(seen)[k as int] == color);
                    assert(distinct_colors(seen).contains(color));
                }
                counts.set(k, ColorCount { color, count: entry.count + 1 });
                assert(counts@ =~= tally(next));
            },
            None => {
                proof {
                    if distinct_colors(seen).contains(color) {
                        let m = choose|m: int|
                            0 <= m < distinct_colors(seen).len() && distinct_colors(seen)[m]
                                == color;
                        assert(counts@[m].color == color);
                    }
                }
                counts.push(ColorCount { color, count: 1 });
                assert(counts@ =~= tally(next));
            },
        }
        i += 1;
    }
    assert(pixels@.take(i as int) =~= pixels@);
    counts
}

} // verus!
