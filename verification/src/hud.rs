//! The HUD overlay's draw list: screen-space texts composited after display
//! effects, with no world depth or camera transform. The GPU work is the
//! renderer's; this decides what is drawn, and refuses bad tints.
use vstd::prelude::*;

verus! {

/// What the HUD pass needs to know of a scene item. Tints are binary32 bit
/// patterns of the linear RGB channels.
#[derive(Clone, Copy, Debug, PartialEq, Eq)]
pub struct HudItem {
    /// The item is a text mesh.
    pub text: bool,
    /// The text is anchored to the screen rather than placed in the world.
    pub screen: bool,
    /// The text renderer has a mesh for it.
    pub mesh: bool,
    pub tint: [u32; 3],
}

#[derive(Clone, Copy, Debug, PartialEq, Eq, Structural)]
pub enum HudError {
    /// A HUD text's tint is not finite or not within 0..=1.
    InvalidTint,
}

/// A binary32 value in `0.0..=1.0`: zero (either sign) up to one.
pub open spec fn in_unit_interval(bits: u32) -> bool {
    bits <= 0x3f80_0000 || bits == 0x8000_0000
}

pub open spec fn tint_ok(item: HudItem) -> bool {
    in_unit_interval(item.tint[0]) && in_unit_interval(item.tint[1]) && in_unit_interval(item.tint[2])
}

/// The item is drawn by the HUD pass: a screen text with a mesh.
pub open spec fn is_hud_text(item: HudItem) -> bool {
    item.text && item.screen && item.mesh
}

/// Indices of the HUD texts among the first `k` items, in order.
pub open spec fn hud_texts(items: Seq<HudItem>, k: int) -> Seq<usize>
    decreases k,
{
    if k <= 0 {
        Seq::empty()
    } else if is_hud_text(items[k - 1]) {
        hud_texts(items, k - 1).push((k - 1) as usize)
    } else {
        hud_texts(items, k - 1)
    }
}

/// Whether some HUD text among the first `k` items has a bad tint.
pub open spec fn bad_tint_before(items: Seq<HudItem>, k: int) -> bool {
    exists|i: int| 0 <= i < k && is_hud_text(#[trigger] items[i]) && !tint_ok(items[i])
}

/// The HUD list names exactly the screen texts with a mesh, each once, in
/// increasing item order.
pub proof fn lemma_hud_texts_are_the_screen_texts(items: Seq<HudItem>, k: int)
    requires
        0 <= k <= items.len(),
        k <= usize::MAX,
    ensures
        forall|j: int| 0 <= j < hud_texts(items, k).len() ==> (#[trigger] hud_texts(items, k)[j]) < k
            && is_hud_text(items[hud_texts(items, k)[j] as int]),
        forall|a: int, b: int| 0 <= a < b < hud_texts(items, k).len() ==> #[trigger] hud_texts(items, k)[a] < #[trigger] hud_texts(items, k)[b],
        forall|i: int| 0 <= i < k && is_hud_text(#[trigger] items[i]) ==> hud_texts(items, k).contains(i as usize),
    decreases k,
{
    if k > 0 {
        lemma_hud_texts_are_the_screen_texts(items, k - 1);
        let prev = hud_texts(items, k - 1);
        let cur = hud_texts(items, k);
        assert forall|i: int| 0 <= i < k && is_hud_text(#[trigger] items[i]) implies cur.contains(i as usize) by {
            if i < k - 1 {
                let j = choose|j: int| 0 <= j < prev.len() && prev[j] == i as usize;
                assert(cur[j] == prev[j]);
            } else {
                assert(cur[cur.len() - 1] == (k - 1) as usize);
            }
        }
    }
}

/// The items the HUD pass draws, in order. Without a glyph atlas nothing is
/// drawn; a HUD text with a bad tint fails the whole pass.
pub fn hud_draw_list(atlas: bool, items: &Vec<HudItem>) -> (r: Result<Vec<usize>, HudError>)
    ensures
        !atlas ==> (r matches Ok(v) && v@.len() == 0),
        atlas ==> match r {
            Ok(v) => !bad_tint_before(items@, items@.len() as int) && v@ == hud_texts(items@, items@.len() as int),
            Err(e) => bad_tint_before(items@, items@.len() as int) && e == HudError::InvalidTint,
        },
{
    let mut draws: Vec<usize> = Vec::new();
    if !atlas {
        return Ok(draws);
    }
    let mut i: usize = 0;
    while i < items.len()
        invariant
            atlas,
            i <= items@.len(),
            !bad_tint_before(items@, i as int),
            draws@ == hud_texts(items@, i as int),
        decreases items@.len() - i,
    {
        let item = items[i];
        if item.text && item.screen && item.mesh {
            let t = item.tint;
            let ok = (t[0] <= 0x3f80_0000 || t[0] == 0x8000_0000) && (t[1] <= 0x3f80_0000 || t[1] == 0x8000_0000)
                && (t[2] <= 0x3f80_0000 || t[2] == 0x8000_0000);
            if !ok {
                assert(is_hud_text(items@[i as int]) && !tint_ok(items@[i as int]));
                return Err(HudError::InvalidTint);
            }
            draws.push(i);
        }
        i = i + 1;
        assert(!bad_tint_before(items@, i as int)) by {
            if bad_tint_before(items@, i as int) {
                let j = choose|j: int| 0 <= j < i && is_hud_text(#[trigger] items@[j]) && !tint_ok(items@[j]);
                if j < i - 1 {
                    assert(bad_tint_before(items@, (i - 1) as int));
                }
            }
        }
    }
    Ok(draws)
}

/// Whether the HUD shader encodes to sRGB itself: only into a linear target,
/// and not for raw captures.
pub fn hud_encodes(target_is_srgb: bool, raw: bool) -> (r: bool)
    ensures
        r == (!target_is_srgb && !raw),
{
    !target_is_srgb && !raw
}

} // verus!
