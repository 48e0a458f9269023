//! An "ironbow" style false-color palette:
//! The classic black -> purple -> red -> orange -> yellow -> white
//! look used by most thermal cameras.

use crate::text::{decimal, hex2, push_decimal, push_hex2};
use vstd::prelude::*;

verus! {

/// A color of the palette and its place.
#[derive(Debug, Clone, Copy, PartialEq, Eq, Structural)]
pub struct Stop {
    /// The place between the coldest (0) and the hottest (100).
    pub percent: u8,
    pub red: u8,
    pub green: u8,
    pub blue: u8,
}

/// The stops of the palette, from the coldest to the hottest.
pub open spec fn palette() -> Seq<Stop> {
    seq![
        Stop { percent: 0, red: 0, green: 0, blue: 0 },
        Stop { percent: 13, red: 30, green: 0, blue: 60 },
        Stop { percent: 28, red: 90, green: 0, blue: 140 },
        Stop { percent: 45, red: 180, green: 0, blue: 150 },
        Stop { percent: 60, red: 225, green: 30, blue: 35 },
        Stop { percent: 75, red: 248, green: 150, blue: 10 },
        Stop { percent: 88, red: 255, green: 220, blue: 0 },
        Stop { percent: 100, red: 255, green: 255, blue: 255 },
    ]
}

/// The stops of the palette, from the coldest to the hottest.
pub fn stops() -> (r: [Stop; 8])
    ensures
        r@ == palette(),
{
    let r = [
        Stop { percent: 0, red: 0, green: 0, blue: 0 },
        Stop { percent: 13, red: 30, green: 0, blue: 60 },
        Stop { percent: 28, red: 90, green: 0, blue: 140 },
        Stop { percent: 45, red: 180, green: 0, blue: 150 },
        Stop { percent: 60, red: 225, green: 30, blue: 35 },
        Stop { percent: 75, red: 248, green: 150, blue: 10 },
        Stop { percent: 88, red: 255, green: 220, blue: 0 },
        Stop { percent: 100, red: 255, green: 255, blue: 255 },
    ];
    assert(r@ =~= palette());
    r
}

/// The palette spans the whole scale, and its stops are in order.
pub proof fn law_palette_spans_the_scale()
    ensures
        palette().first().percent == 0,
        palette().last().percent == 100,
        forall|i: int, j: int|
            0 <= i < j < palette().len() ==> (#[trigger] palette()[i]).percent < (
            #[trigger] palette()[j]).percent,
{
}

/// A stop in CSS: its color and its place.
pub open spec fn stop_text(s: Stop) -> Seq<char> {
    "#"@ + hex2(s.red, false) + hex2(s.green, false) + hex2(s.blue, false) + " "@ + decimal(
        s.percent as nat,
    ) + "%"@
}

/// Stops in CSS, separated by commas.
pub open spec fn stop_list(stops: Seq<Stop>) -> Seq<char>
    decreases stops.len(),
{
    if stops.len() == 0 {
        Seq::empty()
    } else if stops.len() == 1 {
        stop_text(stops[0])
    } else {
        stop_list(stops.drop_last()) + ", "@ + stop_text(stops.last())
    }
}

fn push_stop(out: &mut String, s: Stop)
    ensures
        final(out)@ == old(out)@ + stop_text(s),
{
    out.append("#");
    push_hex2(out, s.red, false);
    push_hex2(out, s.green, false);
    push_hex2(out, s.blue, false);
    out.append(" ");
    push_decimal(out, s.percent as u64);
    out.append("%");
    assert(out@ =~= old(out)@ + stop_text(s));
}

/// Renders the palette as a CSS `linear-gradient`, hottest color on top, for
/// the on-screen legend bar.
pub fn css_gradient() -> (r: String)
    ensures
        r@ == "linear-gradient(to top, "@ + stop_list(palette()) + ")"@,
{
    let stops = stops();
    let mut r = "linear-gradient(to top, ".to_owned();
    push_stop(&mut r, stops[0]);
    let mut i: usize = 1;
    assert(stops@.take(1)[0] == stops@[0]);
    while i < 8
        invariant
            1 <= i <= 8,
            stops@.len() == 8,
            r@ == "linear-gradient(to top, "@ + stop_list(stops@.take(i as int)),
        decreases 8 - i,
    {
        assert(stops@.take(i + 1).drop_last() =~= stops@.take(i as int));
        r.append(", ");
        push_stop(&mut r, stops[i]);
        assert(r@ =~= "linear-gradient(to top, "@ + stop_list(stops@.take(i + 1)));
        i += 1;
    }
    assert(stops@.take(8) =~= stops@);
    r.append(")");
    r
}

} // verus!
