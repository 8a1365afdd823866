//! Discord mentions of users, roles and channels, and their text.
use vstd::prelude::*;

use crate::text::decimal;

verus! {

/// Someone or something a message pings: a user, a role or a channel, by id.
#[derive(Clone, Copy, Debug, PartialEq, Eq, Structural)]
pub enum Mention {
    User(u64),
    Role(u64),
    Channel(u64),
}

impl Mention {
    /// The id that the mention refers to.
    pub open spec fn id(self) -> u64 {
        match self {
            Mention::User(id) => id,
            Mention::Role(id) => id,
            Mention::Channel(id) => id,
        }
    }
}

/// The text of a mention as Discord writes it: `<@id>` for a user, `<@&id>`
/// for a role and `<#id>` for a channel, the id in decimal.
pub open spec fn mention_text(m: Mention) -> Seq<char> {
    match m {
        Mention::User(id) => "<@"@ + decimal(id as nat) + ">"@,
        Mention::Role(id) => "<@&"@ + decimal(id as nat) + ">"@,
        Mention::Channel(id) => "<#"@ + decimal(id as nat) + ">"@,
    }
}

/// serenity's `Display` for its `Mention` (`mention.to_string()`), on the
/// mention of the same kind and id: it writes `<@{id}>`, `<@&{id}>` or
/// `<#{id}>` with the id in decimal.  The id types' `new` panics on 0.
#[verifier::external_body]
fn serenity_mention_string(m: Mention) -> (s: String)
    requires
        m.id() != 0,
    ensures
        s@ == mention_text(m),
{
    let m = match m {
        Mention::User(id) => serenity::all::Mention::User(serenity::all::UserId::new(id)),
        Mention::Role(id) => serenity::all::Mention::Role(serenity::all::RoleId::new(id)),
        Mention::Channel(id) => serenity::all::Mention::Channel(serenity::all::ChannelId::new(id)),
    };
    m.to_string()
}

impl Mention {
    /// The mention as text (`mention.to_string()`).
    pub fn text(&self) -> (s: String)
        requires
            self.id() != 0,
        ensures
            s@ == mention_text(*self),
    {
        serenity_mention_string(*self)
    }
}

/// The texts of the mentions, one after another without separator.
pub open spec fn mentions_text(ms: Seq<Mention>) -> Seq<char>
    decreases ms.len(),
{
    if ms.len() == 0 {
        Seq::empty()
    } else {
        mentions_text(ms.drop_last()) + mention_text(ms.last())
    }
}

/// The mentions written one after another, as
/// `mentions.iter().map(|m| m.to_string()).collect::<String>()`.
pub fn mentions_string(ms: &Vec<Mention>) -> (s: String)
    requires
        forall|i: int| 0 <= i < ms@.len() ==> (#[trigger] ms@[i]).id() != 0,
    ensures
        s@ == mentions_text(ms@),
{
    let mut s = String::new();
    let mut k: usize = 0;
    assert(ms@.take(0) =~= Seq::<Mention>::empty());
    while k < ms.len()
        invariant
            k <= ms.len(),
            forall|i: int| 0 <= i < ms@.len() ==> (#[trigger] ms@[i]).id() != 0,
            s@ == mentions_text(ms@.take(k as int)),
        decreases ms.len() - k,
    {
        assert(ms@.take(k + 1).drop_last() =~= ms@.take(k as int));
        let t = ms[k].text();
        s.append(t.as_str());
        k += 1;
    }
    assert(ms@.take(k as int) =~= ms@);
    s
}

} // verus!
