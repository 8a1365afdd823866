//! A message in the support channel opens a private support thread.
use vstd::prelude::*;
use vstd::string::StringExecFns;

use crate::mention::Mention;
use crate::EmbedDef;

verus! {

/// Handler of messages posted in the support channel.
pub struct SupportMessageCommand;

/// Who the new thread pings: the support roles and then the author; with no
/// support role, the author and then the guild's owner.
pub open spec fn support_mentions_spec(role_ids: Seq<u64>, author_id: u64, owner_id: u64) -> Seq<Mention> {
    if role_ids.len() == 0 {
        seq![Mention::User(author_id), Mention::User(owner_id)]
    } else {
        role_ids.map_values(|id: u64| Mention::Role(id)) + seq![Mention::User(author_id)]
    }
}

impl SupportMessageCommand {
    /// Whether the guild's owner must be looked up to be pinged: only when
    /// the guild has no support role.
    pub fn needs_owner(role_ids: &Vec<u64>) -> (b: bool)
        ensures
            b == (role_ids@.len() == 0),
    {
        role_ids.len() == 0
    }

    /// The mentions of a new support thread.  The owner is needed (and only
    /// read) when there is no support role.
    pub fn mentions(role_ids: &Vec<u64>, author_id: u64, owner_id: Option<u64>) -> (ms: Vec<Mention>)
        requires
            role_ids@.len() == 0 ==> owner_id is Some,
        ensures
            ms@ == support_mentions_spec(role_ids@, author_id, owner_id.unwrap_or(0)),
    {
        let mut ms: Vec<Mention> = Vec::new();
        if role_ids.len() == 0 {
            ms.push(Mention::User(author_id));
            ms.push(Mention::User(owner_id.unwrap()));
            assert(ms@ =~= support_mentions_spec(role_ids@, author_id, owner_id.unwrap_or(0)));
            return ms;
        }
        let mut k: usize = 0;
        while k < role_ids.len()
            invariant
                k <= role_ids@.len(),
                ms@ == role_ids@.take(k as int).map_values(|id: u64| Mention::Role(id)),
            decreases role_ids@.len() - k,
        {
            ms.push(Mention::Role(role_ids[k]));
            k += 1;
            assert(ms@ =~= role_ids@.take(k as int).map_values(|id: u64| Mention::Role(id)));
        }
        assert(role_ids@.take(k as int) =~= role_ids@);
        ms.push(Mention::User(author_id));
        ms
    }

    /// The embed that carries the text of the message in the new thread.
    pub fn issue_embed(content: &str) -> (e: EmbedDef)
        ensures
            e.title@ == "Issue"@,
            e.description@ == content@,
            e.footer is None,
    {
        EmbedDef {
            title: String::from_str("Issue"),
            description: String::from_str(content),
            footer: None,
        }
    }
}

} // verus!
