//! What the palette and the colour-index map of an image are.
//!
//! Both are stated over the run of the image's quantized colours in raster
//! order, and the properties that a palette and its map have by construction
//! are proved here once and for all.

use vstd::prelude::*;
use crate::color::Color;

verus! {

/// The palette of a run of colours: its distinct colours, each once, in the
/// order in which they first appear.
pub open spec fn palette_of(colors: Seq<Color>) -> Seq<Color>
    decreases colors.len(),
{
    if colors.len() == 0 {
        Seq::empty()
    } else {
        let earlier = palette_of(colors.drop_last());
        if earlier.contains(colors.last()) {
            earlier
        } else {
            earlier.push(colors.last())
        }
    }
}

/// `color_map` gives, for every position of `colors`, a position of `palette`
/// that holds the same colour.
pub open spec fn indexes(color_map: Seq<usize>, palette: Seq<Color>, colors: Seq<Color>) -> bool {
    &&& color_map.len() == colors.len()
    &&& forall|i: int|
        0 <= i < colors.len() ==> (#[trigger] color_map[i]) < palette.len()
            && palette[color_map[i] as int] == colors[i]
}

/// `palette` and `color_map` are the result of indexing `colors`: the palette
/// is the palette of the colours, and the map leads from every position to
/// its colour's place in the palette.
pub open spec fn is_indexing(colors: Seq<Color>, palette: Seq<Color>, color_map: Seq<usize>) -> bool {
    palette == palette_of(colors) && indexes(color_map, palette, colors)
}

/// A palette holds exactly the colours of the run it was made from.
pub proof fn lemma_palette_members(colors: Seq<Color>, color: Color)
    ensures
        palette_of(colors).contains(color) <==> colors.contains(color),
    decreases colors.len(),
{
    if colors.len() > 0 {
        let front = colors.drop_last();
        lemma_palette_members(front, color);
        lemma_palette_members(front, colors.last());
        let earlier = palette_of(front);
        if colors.contains(color) {
            let i = choose|i: int| 0 <= i < colors.len() && colors[i] == color;
            if i < front.len() {
                assert(front[i] == color);
                assert(earlier.contains(color));
                let j = choose|j: int| 0 <= j < earlier.len() && earlier[j] == color;
                assert(palette_of(colors)[j] == color);
            } else {
                if earlier.contains(color) {
                } else {
                    assert(palette_of(colors)[earlier.len() as int] == color);
                }
            }
        }
        if palette_of(colors).contains(color) {
            let j = choose|j: int| 0 <= j < palette_of(colors).len() && palette_of(colors)[j] == color;
            if j < earlier.len() {
                assert(earlier[j] == color);
                assert(front.contains(color));
                let i = choose|i: int| 0 <= i < front.len() && front[i] == color;
                assert(colors[i] == color);
            } else {
                assert(colors[colors.len() - 1] == color);
            }
        }
    }
}

/// No colour stands twice in a palette.
pub proof fn lemma_palette_distinct(colors: Seq<Color>)
    ensures
        palette_of(colors).no_duplicates(),
    decreases colors.len(),
{
    if colors.len() > 0 {
        lemma_palette_distinct(colors.drop_last());
    }
}

/// A palette is no longer than the run of colours it was made from.
pub proof fn lemma_palette_len(colors: Seq<Color>)
    ensures
        palette_of(colors).len() <= colors.len(),
    decreases colors.len(),
{
    if colors.len() > 0 {
        lemma_palette_len(colors.drop_last());
    }
}

/// First-seen order: the palette of the first `count` colours is the front
/// of the palette of the whole run. So the colours that appear earlier stand
/// earlier, and those of a longer prefix are only ever appended.
pub proof fn lemma_palette_first_seen(colors: Seq<Color>, count: int)
    requires
        0 <= count <= colors.len(),
    ensures
        palette_of(colors.take(count)).len() <= palette_of(colors).len(),
        palette_of(colors.take(count)) == palette_of(colors).take(
            palette_of(colors.take(count)).len() as int,
        ),
    decreases colors.len(),
{
    if count == colors.len() {
        assert(colors.take(count) =~= colors);
        assert(palette_of(colors) =~= palette_of(colors).take(palette_of(colors).len() as int));
    } else {
        let front = colors.drop_last();
        lemma_palette_first_seen(front, count);
        assert(front.take(count) =~= colors.take(count));
        let part = palette_of(colors.take(count));
        assert(part =~= palette_of(colors).take(part.len() as int));
    }
}

/// The first colour of a palette is the first colour of the run.
pub proof fn lemma_palette_starts_with_first(colors: Seq<Color>)
    requires
        colors.len() > 0,
    ensures
        palette_of(colors).len() > 0,
        palette_of(colors)[0] == colors[0],
{
    lemma_palette_first_seen(colors, 1);
    let head = colors.take(1);
    assert(head.drop_last() =~= Seq::<Color>::empty());
    assert(palette_of(head.drop_last()) =~= Seq::<Color>::empty());
    assert(palette_of(head) =~= seq![colors[0]]);
    assert(palette_of(head)[0] == palette_of(colors).take(1)[0]);
}

/// Every entry of the map of an indexing is a valid position of its palette,
/// the map has one entry for each colour, and the palette has no duplicates
/// and no more entries than there are colours.
pub proof fn lemma_indexing_well_formed(
    colors: Seq<Color>,
    palette: Seq<Color>,
    color_map: Seq<usize>,
)
    requires
        is_indexing(colors, palette, color_map),
    ensures
        color_map.len() == colors.len(),
        forall|i: int| 0 <= i < color_map.len() ==> 0 <= (#[trigger] color_map[i]) < palette.len(),
        palette.no_duplicates(),
        palette.len() <= colors.len(),
{
    lemma_palette_distinct(colors);
    lemma_palette_len(colors);
}

/// Indexing is a function of the colours: two indexings of the same run have
/// the same palette, in the same order, and the same map.
pub proof fn lemma_indexing_unique(
    colors: Seq<Color>,
    first_palette: Seq<Color>,
    first_map: Seq<usize>,
    second_palette: Seq<Color>,
    second_map: Seq<usize>,
)
    requires
        is_indexing(colors, first_palette, first_map),
        is_indexing(colors, second_palette, second_map),
    ensures
        first_palette == second_palette,
        first_map == second_map,
{
    lemma_palette_distinct(colors);
    assert forall|i: int| 0 <= i < colors.len() implies first_map[i] == second_map[i] by {
        let a = first_map[i];
        let b = second_map[i];
        assert(first_palette[a as int] == colors[i]);
        assert(second_palette[b as int] == colors[i]);
    }
    assert(first_map =~= second_map);
}

} // verus!
