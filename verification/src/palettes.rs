//! The colours of the charts.

use vstd::prelude::*;

verus! {

/// An opaque colour, by its red, green and blue parts.
#[derive(Clone, Copy, Debug, PartialEq, Eq, Structural, Hash)]
pub struct Colour {
    pub red: u8,
    pub green: u8,
    pub blue: u8,
}

/// The colour with the given parts.
pub open spec fn rgb(red: u8, green: u8, blue: u8) -> Colour {
    Colour { red, green, blue }
}

/// The palette of eight colours, for up to eight series.
pub open spec fn small_palette() -> Seq<Colour> {
    seq![
        rgb(0, 184, 170),
        rgb(55, 70, 73),
        rgb(253, 98, 94),
        rgb(242, 200, 17),
        rgb(95, 107, 109),
        rgb(138, 212, 235),
        rgb(254, 150, 102),
        rgb(166, 105, 153),
    ]
}

/// The palette of twelve colours, for nine to twelve series.
pub open spec fn medium_palette() -> Seq<Colour> {
    seq![
        rgb(229, 134, 6),
        rgb(93, 105, 177),
        rgb(82, 188, 163),
        rgb(153, 201, 69),
        rgb(204, 97, 176),
        rgb(36, 121, 108),
        rgb(218, 165, 27),
        rgb(47, 138, 196),
        rgb(118, 78, 159),
        rgb(237, 100, 90),
        rgb(204, 58, 142),
        rgb(165, 170, 153),
    ]
}

/// The palette of fourteen colours, for more than twelve series.
pub open spec fn large_palette() -> Seq<Colour> {
    seq![
        rgb(65, 123, 161),
        rgb(255, 20, 147),
        rgb(255, 255, 46),
        rgb(52, 86, 52),
        rgb(139, 0, 0),
        rgb(255, 103, 0),
        rgb(147, 192, 213),
        rgb(139, 69, 19),
        rgb(146, 72, 167),
        rgb(28, 136, 89),
        rgb(71, 71, 71),
        rgb(143, 188, 143),
        rgb(210, 180, 140),
        rgb(0, 0, 0),
    ]
}

/// The palette for a number of series: the smallest of the three that has a
/// colour for each, or the largest where none has.
pub open spec fn palette_for(count: int) -> Seq<Colour> {
    if count <= 8 {
        small_palette()
    } else if count <= 12 {
        medium_palette()
    } else {
        large_palette()
    }
}

fn colour(red: u8, green: u8, blue: u8) -> (r: Colour)
    ensures
        r == rgb(red, green, blue),
{
    Colour { red, green, blue }
}

/// The palette for `num_required_colours` series.
pub fn fetch_palette(num_required_colours: usize) -> (r: Vec<Colour>)
    ensures
        r@ == palette_for(num_required_colours as int),
{
    let mut r: Vec<Colour> = Vec::new();
    if num_required_colours <= 8 {
        r.push(colour(0, 184, 170));
        r.push(colour(55, 70, 73));
        r.push(colour(253, 98, 94));
        r.push(colour(242, 200, 17));
        r.push(colour(95, 107, 109));
        r.push(colour(138, 212, 235));
        r.push(colour(254, 150, 102));
        r.push(colour(166, 105, 153));
        proof {
            assert(r@ =~= small_palette());
        }
    } else if num_required_colours <= 12 {
        r.push(colour(229, 134, 6));
        r.push(colour(93, 105, 177));
        r.push(colour(82, 188, 163));
        r.push(colour(153, 201, 69));
        r.push(colour(204, 97, 176));
        r.push(colour(36, 121, 108));
        r.push(colour(218, 165, 27));
        r.push(colour(47, 138, 196));
        r.push(colour(118, 78, 159));
        r.push(colour(237, 100, 90));
        r.push(colour(204, 58, 142));
        r.push(colour(165, 170, 153));
        proof {
            assert(r@ =~= medium_palette());
        }
    } else {
        r.push(colour(65, 123, 161));
        r.push(colour(255, 20, 147));
        r.push(colour(255, 255, 46));
        r.push(colour(52, 86, 52));
        r.push(colour(139, 0, 0));
        r.push(colour(255, 103, 0));
        r.push(colour(147, 192, 213));
        r.push(colour(139, 69, 19));
        r.push(colour(146, 72, 167));
        r.push(colour(28, 136, 89));
        r.push(colour(71, 71, 71));
        r.push(colour(143, 188, 143));
        r.push(colour(210, 180, 140));
        r.push(colour(0, 0, 0));
        proof {
            assert(r@ =~= large_palette());
        }
    }
    r
}

} // verus!
