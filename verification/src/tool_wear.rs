//! Wear on the tools of a toolbelt: a tool of type `t` sits in pocket
//! `t - 1`, loses durability with use, and once its durability reaches zero
//! it is either destroyed or turned into another item, which stays equipped
//! when it is a tool of the same type and otherwise goes to the bag.
use vstd::prelude::*;
use crate::item_stack::{ItemStack, Pocket};
use crate::inventory::InventoryState;

verus! {

/// What wearing a tool did to the toolbelt.
#[derive(Clone, Copy, Debug, PartialEq, Eq, Structural)]
pub enum ToolWear {
    /// No tool with durability sits in the tool's pocket: nothing changed.
    Unchanged,
    /// The tool lost durability and still has some.
    Worn,
    /// The tool's durability reached zero.
    WornOut { item_id: i32 },
}

/// The toolbelt pocket of a tool type.
pub open spec fn tool_pocket(tool_type: i32) -> int {
    tool_type - 1
}

/// The durability of the tool in the pocket of `tool_type`, where there is
/// a tool with durability there.
pub open spec fn tool_durability(toolbelt: InventoryState, tool_type: i32) -> Option<i32> {
    match toolbelt.spec_contents(tool_pocket(tool_type)) {
        Some(c) => c.durability,
        None => None,
    }
}

/// The toolbelt's pockets after the tool of `tool_type` lost
/// `durability_lost`, and what that did.
pub open spec fn worn(pockets: Seq<Pocket>, tool_type: i32, durability_lost: i32) -> (Seq<Pocket>, ToolWear) {
    let i = tool_pocket(tool_type);
    if 0 <= i < pockets.len() {
        match pockets[i].contents {
            Some(c) => match c.durability {
                Some(d) => {
                    let left = d - durability_lost;
                    let tool = ItemStack { durability: Some(left as i32), ..c };
                    (
                        pockets.update(i, Pocket { contents: Some(tool), ..pockets[i] }),
                        if left <= 0 { ToolWear::WornOut { item_id: c.item_id } } else { ToolWear::Worn },
                    )
                },
                None => (pockets, ToolWear::Unchanged),
            },
            None => (pockets, ToolWear::Unchanged),
        }
    } else {
        (pockets, ToolWear::Unchanged)
    }
}

/// Wearing a tool touches only its pocket: the tool keeps its item and
/// loses exactly `durability_lost`, and it is worn out exactly when its
/// durability drops to zero or below; with no tool with durability in its
/// pocket nothing changes.
pub proof fn law_wear_takes_exactly_the_durability_lost(pockets: Seq<Pocket>, tool_type: i32, durability_lost: i32)
    ensures
        ({
            let (after, wear) = worn(pockets, tool_type, durability_lost);
            let i = tool_type - 1;
            &&& after.len() == pockets.len()
            &&& forall|j: int| 0 <= j < pockets.len() && j != i ==> #[trigger] after[j] == pockets[j]
            &&& if 0 <= i < pockets.len() && pockets[i].contents is Some && pockets[i].contents->0.durability is Some {
                let c = pockets[i].contents->0;
                let d = c.durability->0;
                let left = d - durability_lost;
                &&& after[i].contents is Some
                &&& after[i].contents->0.item_id == c.item_id
                &&& after[i].contents->0.quantity == c.quantity
                &&& after[i].volume == pockets[i].volume
                &&& (i32::MIN <= left <= i32::MAX ==> after[i].contents->0.durability == Some(left as i32))
                &&& (wear == ToolWear::WornOut { item_id: c.item_id } <==> left <= 0)
                &&& (wear == ToolWear::Worn <==> left > 0)
            } else {
                &&& wear == ToolWear::Unchanged
                &&& after == pockets
            }
        }),
{
}

impl InventoryState {
    /// Takes `durability_lost` off the durability of the tool of `tool_type`
    /// in this toolbelt, if a tool with durability sits in its pocket, and
    /// says whether the tool wore out. A worn-out tool stays in its pocket
    /// until `settle_worn_out_tool` is called.
    pub fn wear_tool(&mut self, tool_type: i32, durability_lost: i32) -> (r: ToolWear)
        requires
            tool_durability(*old(self), tool_type) matches Some(d) ==> i32::MIN <= d - durability_lost <= i32::MAX,
        ensures
            final(self).entity_id == old(self).entity_id,
            final(self).inventory_index == old(self).inventory_index,
            final(self).cargo_index == old(self).cargo_index,
            final(self).owner_entity_id == old(self).owner_entity_id,
            final(self).player_owner_entity_id == old(self).player_owner_entity_id,
            (final(self).pockets@, r) == worn(old(self).pockets@, tool_type, durability_lost),
    {
        if tool_type < 1 {
            return ToolWear::Unchanged;
        }
        let i: usize = (tool_type - 1) as usize;
        if i >= self.pockets.len() {
            return ToolWear::Unchanged;
        }
        let pocket = self.pockets[i];
        match pocket.contents {
            Some(c) => match c.durability {
                Some(d) => {
                    let left = d - durability_lost;
                    let tool = ItemStack { durability: Some(left), ..c };
                    self.pockets.set(i, Pocket { contents: Some(tool), ..pocket });
                    if left <= 0 {
                        ToolWear::WornOut { item_id: c.item_id }
                    } else {
                        ToolWear::Worn
                    }
                },
                None => ToolWear::Unchanged,
            },
            None => ToolWear::Unchanged,
        }
    }

    /// Settles a worn-out tool of `tool_type`: with no item to turn into
    /// (`converted` is `None`) the tool is destroyed; an item that is a tool
    /// of the same type (`equippable`) takes its place; any other item leaves
    /// the pocket empty and is handed back, to go to the player's bag.
    pub fn settle_worn_out_tool(&mut self, tool_type: i32, converted: Option<ItemStack>, equippable: bool) -> (r: Option<
        ItemStack,
    >)
        ensures
            final(self).entity_id == old(self).entity_id,
            final(self).inventory_index == old(self).inventory_index,
            final(self).cargo_index == old(self).cargo_index,
            final(self).owner_entity_id == old(self).owner_entity_id,
            final(self).player_owner_entity_id == old(self).player_owner_entity_id,
            r == if equippable { None } else { converted },
            ({
                let i = tool_pocket(tool_type);
                let left = if equippable { converted } else { None };
                if 0 <= i < old(self).pockets@.len() {
                    final(self).pockets@ == old(self).pockets@.update(i, Pocket { contents: left, ..old(self).pockets@[i] })
                } else {
                    final(self).pockets@ == old(self).pockets@
                }
            }),
    {
        let left = if equippable { converted } else { None };
        if tool_type >= 1 {
            let i: usize = (tool_type - 1) as usize;
            if i < self.pockets.len() {
                let pocket = self.pockets[i];
                self.pockets.set(i, Pocket { contents: left, ..pocket });
            }
        }
        if equippable { None } else { converted }
    }
}

} // verus!
