//! The equaliser's filter chain and its console: which filter bands each
//! channel runs, in which order, and what a typed menu command asks for.
use crate::text::{lemma_trim_idempotent, trim, trimmed_chars};
use vstd::prelude::*;

verus! {

/// One band of the three-band equaliser.
#[derive(Clone, Copy, Debug, PartialEq, Eq, Structural)]
pub enum Band {
    /// The low shelf filter.
    LowShelf,
    /// The peaking filter in the middle.
    PeakingEq,
    /// The high shelf filter.
    HighShelf,
}

/// The filter chain that one channel runs: the active bands among low
/// shelf, peaking and high shelf, in that order.
pub open spec fn band_chain(low_active: bool, peak_active: bool, high_active: bool) -> Seq<Band> {
    (if low_active {
        seq![Band::LowShelf]
    } else {
        Seq::<Band>::empty()
    }) + (if peak_active {
        seq![Band::PeakingEq]
    } else {
        Seq::<Band>::empty()
    }) + (if high_active {
        seq![Band::HighShelf]
    } else {
        Seq::<Band>::empty()
    })
}

/// The chain of one channel, built band by band.
fn channel_chain(low_active: bool, peak_active: bool, high_active: bool) -> (r: Vec<Band>)
    ensures
        r@ == band_chain(low_active, peak_active, high_active),
{
    let mut r: Vec<Band> = Vec::new();
    if low_active {
        r.push(Band::LowShelf);
    }
    if peak_active {
        r.push(Band::PeakingEq);
    }
    if high_active {
        r.push(Band::HighShelf);
    }
    assert(r@ =~= band_chain(low_active, peak_active, high_active));
    r
}

/// The filter bands of every channel, where a band is active when its gain
/// is large enough to matter: one chain per channel, each the same
/// `band_chain`, so every channel is filtered alike and by its own filters.
pub fn plan_filter_bands(low_active: bool, peak_active: bool, high_active: bool, channels: usize) -> (r: Vec<Vec<Band>>)
    ensures
        r@.len() == channels,
        forall|c: int|
            0 <= c < channels ==> (#[trigger] r@[c])@ == band_chain(
                low_active,
                peak_active,
                high_active,
            ),
{
    let mut r: Vec<Vec<Band>> = Vec::new();
    let mut c: usize = 0;
    while c < channels
        invariant
            c <= channels,
            r@.len() == c,
            forall|k: int|
                0 <= k < c ==> (#[trigger] r@[k])@ == band_chain(low_active, peak_active, high_active),
        decreases channels - c,
    {
        r.push(channel_chain(low_active, peak_active, high_active));
        c = c + 1;
    }
    r
}

/// A command of the equaliser's console menu.
#[derive(Clone, Copy, Debug, PartialEq, Eq, Structural)]
pub enum MenuChoice {
    /// `1`: set the low shelf gain.
    LowShelfGain,
    /// `2`: set the peaking gain.
    PeakingEqGain,
    /// `3`: set the high shelf gain.
    HighShelfGain,
    /// `q` or `Q`: quit.
    Quit,
    /// Anything else.
    Invalid,
}

/// The menu command that a typed line gives, once trimmed.
pub open spec fn menu_choice(input: Seq<char>) -> MenuChoice {
    let t = trim(input);
    if t == seq!['1'] {
        MenuChoice::LowShelfGain
    } else if t == seq!['2'] {
        MenuChoice::PeakingEqGain
    } else if t == seq!['3'] {
        MenuChoice::HighShelfGain
    } else if t == seq!['q'] || t == seq!['Q'] {
        MenuChoice::Quit
    } else {
        MenuChoice::Invalid
    }
}

/// Reads a typed menu line.
pub fn parse_menu_choice(input: &str) -> (r: MenuChoice)
    ensures
        r == menu_choice(input@),
{
    let t = trimmed_chars(input);
    if t.len() != 1 {
        proof {
            assert(t@ != seq!['1']);
            assert(t@ != seq!['2']);
            assert(t@ != seq!['3']);
            assert(t@ != seq!['q']);
            assert(t@ != seq!['Q']);
        }
        return MenuChoice::Invalid;
    }
    let c = t[0];
    proof {
        assert(t@ =~= seq![c]);
    }
    if c == '1' {
        MenuChoice::LowShelfGain
    } else if c == '2' {
        MenuChoice::PeakingEqGain
    } else if c == '3' {
        MenuChoice::HighShelfGain
    } else if c == 'q' || c == 'Q' {
        MenuChoice::Quit
    } else {
        proof {
            assert(seq!['1'][0] == '1');
            assert(seq!['2'][0] == '2');
            assert(seq!['3'][0] == '3');
            assert(seq!['q'][0] == 'q');
            assert(seq!['Q'][0] == 'Q');
        }
        MenuChoice::Invalid
    }
}

/// A menu line means the same with or without whitespace around it.
pub proof fn lemma_menu_choice_ignores_surrounding_whitespace(input: Seq<char>)
    ensures
        menu_choice(trim(input)) == menu_choice(input),
{
    lemma_trim_idempotent(input);
}

/// Each band of a channel's chain depends on its own flag alone: the low
/// shelf is in the chain exactly when it is active, and likewise the peaking
/// filter and the high shelf. No band appears twice, the low shelf comes
/// first and the high shelf last.
pub proof fn lemma_band_chain_follows_flags(low_active: bool, peak_active: bool, high_active: bool)
    ensures
        band_chain(low_active, peak_active, high_active).contains(Band::LowShelf) == low_active,
        band_chain(low_active, peak_active, high_active).contains(Band::PeakingEq) == peak_active,
        band_chain(low_active, peak_active, high_active).contains(Band::HighShelf) == high_active,
        band_chain(low_active, peak_active, high_active).len() == (if low_active {
            1int
        } else {
            0int
        }) + (if peak_active {
            1int
        } else {
            0int
        }) + (if high_active {
            1int
        } else {
            0int
        }),
        forall|i: int, j: int|
            0 <= i < j < band_chain(low_active, peak_active, high_active).len() ==> band_chain(
                low_active,
                peak_active,
                high_active,
            )[i] != band_chain(low_active, peak_active, high_active)[j],
        forall|i: int|
            0 <= i < band_chain(low_active, peak_active, high_active).len() && band_chain(
                low_active,
                peak_active,
                high_active,
            )[i] == Band::LowShelf ==> i == 0,
        forall|i: int|
            0 <= i < band_chain(low_active, peak_active, high_active).len() && band_chain(
                low_active,
                peak_active,
                high_active,
            )[i] == Band::HighShelf ==> i == band_chain(low_active, peak_active, high_active).len()
                - 1,
{
    let c = band_chain(low_active, peak_active, high_active);
    let l = if low_active { seq![Band::LowShelf] } else { Seq::<Band>::empty() };
    let p = if peak_active { seq![Band::PeakingEq] } else { Seq::<Band>::empty() };
    let h = if high_active { seq![Band::HighShelf] } else { Seq::<Band>::empty() };
    assert(c == l + p + h);
    assert forall|b: Band| c.contains(b) <==> (l.contains(b) || p.contains(b) || h.contains(b)) by {
        if c.contains(b) {
            let i = choose|i: int| 0 <= i < c.len() && c[i] == b;
            if i < l.len() {
                assert(l[i] == b);
            } else if i < l.len() + p.len() {
                assert(p[i - l.len()] == b);
            } else {
                assert(h[i - l.len() - p.len()] == b);
            }
        }
        if l.contains(b) {
            let i = choose|i: int| 0 <= i < l.len() && l[i] == b;
            assert(c[i] == b);
        }
        if p.contains(b) {
            let i = choose|i: int| 0 <= i < p.len() && p[i] == b;
            assert(c[l.len() + i] == b);
        }
        if h.contains(b) {
            let i = choose|i: int| 0 <= i < h.len() && h[i] == b;
            assert(c[l.len() + p.len() + i] == b);
        }
    }
    if low_active {
        assert(l[0] == Band::LowShelf);
    }
    if peak_active {
        assert(p[0] == Band::PeakingEq);
    }
    if high_active {
        assert(h[0] == Band::HighShelf);
    }
}

} // verus!
