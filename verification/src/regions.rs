//! The engine's handles behind a store: one tree for each region, and one
//! batch of writes for each region while a commit is staged.

use vstd::prelude::*;

use crate::engine::{batch_writes, tree_map, tree_name};
use crate::model::{region_names, RegionNames, StoreView, WritesView};

verus! {

/// One engine tree for each region.
#[derive(Debug)]
pub struct Regions {
    pub session: sled::Tree,
    pub account_data: sled::Tree,
    pub members: sled::Tree,
    pub joined_user_ids: sled::Tree,
    pub invited_user_ids: sled::Tree,
    pub room_info: sled::Tree,
    pub room_state: sled::Tree,
    pub room_account_data: sled::Tree,
    pub stripped_room_info: sled::Tree,
    pub stripped_room_state: sled::Tree,
    pub stripped_members: sled::Tree,
    pub presence: sled::Tree,
}

impl View for Regions {
    type V = StoreView;

    open spec fn view(&self) -> StoreView {
        StoreView {
            session: tree_map(self.session),
            account_data: tree_map(self.account_data),
            members: tree_map(self.members),
            joined_user_ids: tree_map(self.joined_user_ids),
            invited_user_ids: tree_map(self.invited_user_ids),
            room_info: tree_map(self.room_info),
            room_state: tree_map(self.room_state),
            room_account_data: tree_map(self.room_account_data),
            stripped_room_info: tree_map(self.stripped_room_info),
            stripped_room_state: tree_map(self.stripped_room_state),
            stripped_members: tree_map(self.stripped_members),
            presence: tree_map(self.presence),
        }
    }
}

impl Regions {
    /// The names of the twelve trees.
    pub open spec fn names(&self) -> RegionNames {
        RegionNames {
            session: tree_name(self.session),
            account_data: tree_name(self.account_data),
            members: tree_name(self.members),
            joined_user_ids: tree_name(self.joined_user_ids),
            invited_user_ids: tree_name(self.invited_user_ids),
            room_info: tree_name(self.room_info),
            room_state: tree_name(self.room_state),
            room_account_data: tree_name(self.room_account_data),
            stripped_room_info: tree_name(self.stripped_room_info),
            stripped_room_state: tree_name(self.stripped_room_state),
            stripped_members: tree_name(self.stripped_members),
            presence: tree_name(self.presence),
        }
    }

    /// Each region is the tree that the database keeps under the region's name.
    pub open spec fn wf(&self) -> bool {
        self.names() == region_names()
    }
}

/// One engine batch for each region.
pub struct Batches {
    pub session: sled::Batch,
    pub account_data: sled::Batch,
    pub members: sled::Batch,
    pub joined_user_ids: sled::Batch,
    pub invited_user_ids: sled::Batch,
    pub room_info: sled::Batch,
    pub room_state: sled::Batch,
    pub room_account_data: sled::Batch,
    pub stripped_room_info: sled::Batch,
    pub stripped_room_state: sled::Batch,
    pub stripped_members: sled::Batch,
    pub presence: sled::Batch,
}

impl View for Batches {
    type V = WritesView;

    open spec fn view(&self) -> WritesView {
        WritesView {
            session: batch_writes(self.session),
            account_data: batch_writes(self.account_data),
            members: batch_writes(self.members),
            joined_user_ids: batch_writes(self.joined_user_ids),
            invited_user_ids: batch_writes(self.invited_user_ids),
            room_info: batch_writes(self.room_info),
            room_state: batch_writes(self.room_state),
            room_account_data: batch_writes(self.room_account_data),
            stripped_room_info: batch_writes(self.stripped_room_info),
            stripped_room_state: batch_writes(self.stripped_room_state),
            stripped_members: batch_writes(self.stripped_members),
            presence: batch_writes(self.presence),
        }
    }
}

} // verus!
