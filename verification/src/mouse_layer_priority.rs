//! Giving a manually held layer priority over the auto mouse layer.
//!
//! A manual layer press emits one synthetic non-mouse action so the auto-mouse runner
//! releases layer 3 through its normal path, and the held-layer mask keeps the trigger
//! from re-arming layer 3 until the layer key is released.
use vstd::prelude::*;

verus! {

pub const AUTO_MOUSE_LAYER: u8 = 3;

/// The mask bit of a manually held layer: none for the auto mouse layer or layers past 7.
pub open spec fn manual_layer_bit_spec(layer: u8) -> Option<u8> {
    if layer == AUTO_MOUSE_LAYER || layer >= 8 {
        None
    } else {
        Some((1u8 << layer) as u8)
    }
}

pub fn manual_layer_bit(layer: u8) -> (r: Option<u8>)
    ensures
        r == manual_layer_bit_spec(layer),
{
    if layer == AUTO_MOUSE_LAYER || layer >= u8::BITS as u8 {
        None
    } else {
        Some(1 << layer)
    }
}

/// The mask bit of a layer action: `layer` is the layer of a `LayerOn` or
/// `LayerOnWithModifier` action, `None` for every other action.
pub fn manual_layer_bit_from_action(layer: Option<u8>) -> (r: Option<u8>)
    ensures
        r == match layer {
            Some(l) => manual_layer_bit_spec(l),
            None => None,
        },
{
    match layer {
        Some(layer) => manual_layer_bit(layer),
        None => None,
    }
}

/// Whether a manually held layer (a non-zero held-layer mask) needs priority over the auto mouse layer.
pub fn manual_layer_is_active(mask: u8) -> (r: bool)
    ensures
        r == (mask != 0),
{
    mask != 0
}

/// Tracks held manual layers.
pub struct MouseLayerPriority {
    pub mask: u8,
}

impl MouseLayerPriority {
    pub fn new() -> (r: Self)
        ensures
            r.mask == 0,
    {
        Self { mask: 0 }
    }

    /// Handles one action event (see [`manual_layer_bit_from_action`] for `layer`).
    /// Returns whether to publish the synthetic non-mouse action (on a manual layer press).
    pub fn handle_event(&mut self, layer: Option<u8>, pressed: bool) -> (r: bool)
        ensures
            ({
                let bit = match layer {
                    Some(l) => manual_layer_bit_spec(l),
                    None => None,
                };
                match bit {
                    None => !r && final(self).mask == old(self).mask,
                    Some(b) => if pressed {
                        r && final(self).mask == old(self).mask | b
                    } else {
                        !r && final(self).mask == old(self).mask & !b
                    },
                }
            }),
    {
        let bit = match manual_layer_bit_from_action(layer) {
            Some(bit) => bit,
            None => return false,
        };
        if pressed {
            self.mask = self.mask | bit;
            true
        } else {
            self.mask = self.mask & !bit;
            false
        }
    }
}

/// Pressing and then releasing one manual layer restores the held-layer mask.
pub proof fn law_press_release_restores_mask(mask: u8, layer: u8)
    requires
        manual_layer_bit_spec(layer) matches Some(b) && mask & b == 0,
    ensures
        ((mask | manual_layer_bit_spec(layer)->0) & !manual_layer_bit_spec(layer)->0) == mask,
{
    let b = manual_layer_bit_spec(layer)->0;
    assert(mask & b == 0 ==> ((mask | b) & !b) == mask) by (bit_vector);
}

/// A held manual layer keeps the auto mouse layer from re-arming: the mask is non-zero
/// from its press until its release.
pub proof fn law_held_layer_is_active(mask: u8, layer: u8)
    requires
        manual_layer_bit_spec(layer) is Some,
    ensures
        (mask | manual_layer_bit_spec(layer)->0) != 0,
{
    let b = manual_layer_bit_spec(layer)->0;
    assert(layer < 8);
    assert(layer < 8 ==> (1u8 << layer) != 0) by (bit_vector);
    assert(b != 0 ==> (mask | b) != 0) by (bit_vector);
}

} // verus!
