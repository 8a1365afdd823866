//! The stored settings of a guild that uses support tickets.
use vstd::prelude::*;

verus! {

/// One guild's ticket settings, as stored: the ids are Discord snowflakes
/// kept in signed 64-bit columns.
pub struct TicketGuildRow {
    pub id: i64,
    pub thread_id: i32,
    pub support_channel_id: Option<i64>,
    pub support_role_ids: Vec<i64>,
    pub faq_channel_id: Option<i64>,
}

/// A stored id read as the unsigned snowflake (`id as u64`).
pub open spec fn snowflake(id: i64) -> u64 {
    id as u64
}

/// An optional stored id read as a snowflake.
pub open spec fn snowflake_opt(id: Option<i64>) -> Option<u64> {
    match id {
        Some(i) => Some(snowflake(i)),
        None => None,
    }
}

/// A stored id that reads as a valid (non-zero) snowflake.
pub open spec fn valid_snowflake(id: i64) -> bool {
    snowflake(id) != 0
}

/// An optional stored id that is absent or a valid snowflake.
pub open spec fn valid_snowflake_opt(id: Option<i64>) -> bool {
    match id {
        Some(i) => valid_snowflake(i),
        None => true,
    }
}

fn to_snowflake(id: i64) -> (r: u64)
    ensures
        r == snowflake(id),
{
    id as u64
}

fn to_snowflake_opt(id: Option<i64>) -> (r: Option<u64>)
    ensures
        r == snowflake_opt(id),
{
    match id {
        Some(i) => Some(to_snowflake(i)),
        None => None,
    }
}

impl TicketGuildRow {
    /// The support channel, if one is set.  A stored 0 is no channel id
    /// (`ChannelId::new` refuses it), so it is left out by `requires`.
    pub fn channel_id(&self) -> (r: Option<u64>)
        requires
            valid_snowflake_opt(self.support_channel_id),
        ensures
            r == snowflake_opt(self.support_channel_id),
    {
        to_snowflake_opt(self.support_channel_id)
    }

    /// The support roles, in stored order.
    pub fn role_ids(&self) -> (r: Vec<u64>)
        requires
            forall|i: int| 0 <= i < self.support_role_ids@.len()
                ==> valid_snowflake(#[trigger] self.support_role_ids@[i]),
        ensures
            r@ == self.support_role_ids@.map_values(|id: i64| snowflake(id)),
    {
        let mut r: Vec<u64> = Vec::new();
        let mut k: usize = 0;
        while k < self.support_role_ids.len()
            invariant
                k <= self.support_role_ids@.len(),
                r@ == self.support_role_ids@.take(k as int).map_values(|id: i64| snowflake(id)),
            decreases self.support_role_ids@.len() - k,
        {
            r.push(to_snowflake(self.support_role_ids[k]));
            k += 1;
            assert(r@ =~= self.support_role_ids@.take(k as int).map_values(|id: i64| snowflake(id)));
        }
        assert(self.support_role_ids@.take(k as int) =~= self.support_role_ids@);
        r
    }

    /// The FAQ channel, if one is set.
    pub fn faq_channel_id(&self) -> (r: Option<u64>)
        requires
            valid_snowflake_opt(self.faq_channel_id),
        ensures
            r == snowflake_opt(self.faq_channel_id),
    {
        to_snowflake_opt(self.faq_channel_id)
    }

    /// Whether a message posted in `channel_id` opens a support thread: only
    /// messages in the guild's support channel do.
    pub fn is_support_channel(&self, channel_id: u64) -> (b: bool)
        requires
            valid_snowflake_opt(self.support_channel_id),
        ensures
            b == (snowflake_opt(self.support_channel_id) == Some(channel_id)),
    {
        match self.channel_id() {
            Some(c) => c == channel_id,
            None => false,
        }
    }
}

} // verus!
