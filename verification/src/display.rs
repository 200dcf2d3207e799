//! Text gauges for the terminal dashboard.
use vstd::prelude::*;
use crate::text::push_char;

verus! {

/// A gauge `width` cells wide with the first `filled` cells solid, in
/// square brackets.
pub open spec fn slider_bar_spec(filled: nat, width: nat) -> Seq<char> {
    seq!['['] + Seq::new(width, |i: int| if i < filled {
        '\u{2588}'
    } else {
        '\u{2591}'
    }) + seq![']']
}

/// The bracketed gauge of a slider: `width` cells, the first `filled` of
/// them solid and the rest shaded.
pub fn slider_bar(filled: usize, width: usize) -> (r: String)
    ensures
        r@ == slider_bar_spec(filled as nat, width as nat),
{
    let mut bar = String::new();
    push_char(&mut bar, '[');
    let mut i: usize = 0;
    while i < width
        invariant
            i <= width,
            bar@ == seq!['['] + Seq::new(width as nat, |k: int| if k < filled {
                '\u{2588}'
            } else {
                '\u{2591}'
            }).take(i as int),
        decreases width - i,
    {
        if i < filled {
            push_char(&mut bar, '\u{2588}');
        } else {
            push_char(&mut bar, '\u{2591}');
        }
        i = i + 1;
        assert(bar@ =~= seq!['['] + Seq::new(width as nat, |k: int| if k < filled {
            '\u{2588}'
        } else {
            '\u{2591}'
        }).take(i as int));
    }
    push_char(&mut bar, ']');
    assert(bar@ =~= slider_bar_spec(filled as nat, width as nat));
    bar
}

} // verus!
