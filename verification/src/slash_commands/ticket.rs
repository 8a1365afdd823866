//! `/ticket`: its definition, its subcommands and their replies.
use vstd::prelude::*;
use vstd::string::StringExecFns;

use crate::error::Error;
use crate::ButtonDef;
use crate::text::{equal_text, replace_all, replaced};

verus! {

/// Handlers of the `/ticket` command.
pub struct TicketCommand;

/// The subcommands of `/ticket`.
#[derive(Clone, Copy, Debug, PartialEq, Eq, Structural)]
pub enum TicketSubcommand {
    Close,
    Create,
    Fixed,
    Open,
    Remove,
}

/// The type of a command argument.
#[derive(Clone, Copy, Debug, PartialEq, Eq, Structural)]
pub enum ArgumentKind {
    String,
    Integer,
    Channel,
}

/// One argument of a subcommand.
pub struct ArgumentDef {
    pub kind: ArgumentKind,
    pub name: String,
    pub description: String,
    pub required: bool,
}

/// One subcommand with its arguments in order.
pub struct SubcommandDef {
    pub name: String,
    pub description: String,
    pub arguments: Vec<ArgumentDef>,
}

/// The permission a member needs, by default, to use a command.
#[derive(Clone, Copy, Debug, PartialEq, Eq, Structural)]
pub enum MemberPermission {
    ManageMessages,
}

/// A slash command with its subcommands in order.
pub struct CommandDef {
    pub name: String,
    pub description: String,
    pub default_member_permissions: MemberPermission,
    pub subcommands: Vec<SubcommandDef>,
}

/// `a` is the argument described by the other parameters.
pub open spec fn argument_is(
    a: ArgumentDef,
    kind: ArgumentKind,
    name: Seq<char>,
    description: Seq<char>,
    required: bool,
) -> bool {
    &&& a.kind == kind
    &&& a.name@ == name
    &&& a.description@ == description
    &&& a.required == required
}

/// `s` is the subcommand with this name and description and `n` arguments.
pub open spec fn subcommand_is(s: SubcommandDef, name: Seq<char>, description: Seq<char>, n: nat) -> bool {
    &&& s.name@ == name
    &&& s.description@ == description
    &&& s.arguments@.len() == n
}

/// The `/ticket` command as it is registered.
pub open spec fn is_ticket_command(c: CommandDef) -> bool {
    let subs = c.subcommands@;
    &&& c.name@ == "ticket"@
    &&& c.description@ == "Ticket management commands"@
    &&& c.default_member_permissions == MemberPermission::ManageMessages
    &&& subs.len() == 5
    &&& subcommand_is(subs[0], "close"@, "Close the ticket"@, 1)
    &&& argument_is(subs[0].arguments@[0], ArgumentKind::String, "message"@,
            "Message to send before closing the ticket"@, false)
    &&& subcommand_is(subs[1], "create"@, "Create a ticket embed and button"@, 3)
    &&& argument_is(subs[1].arguments@[0], ArgumentKind::String, "title"@,
            "The title of the ticket embed"@, false)
    &&& argument_is(subs[1].arguments@[1], ArgumentKind::String, "description"@,
            "The description of the ticket embed"@, false)
    &&& argument_is(subs[1].arguments@[2], ArgumentKind::String, "label"@,
            "The label of the ticket button"@, false)
    &&& subcommand_is(subs[2], "fixed"@, "Mark the ticket as fixed"@, 1)
    &&& argument_is(subs[2].arguments@[0], ArgumentKind::String, "version"@,
            "Version of the game that fixed the issue"@, false)
    &&& subcommand_is(subs[3], "open"@, "Open the ticket"@, 0)
    &&& subcommand_is(subs[4], "remove"@, "Remove a ticket message"@, 2)
    &&& argument_is(subs[4].arguments@[0], ArgumentKind::Integer, "message"@,
            "The message to remove"@, true)
    &&& argument_is(subs[4].arguments@[1], ArgumentKind::Channel, "channel"@,
            "The channel to remove the message from"@, false)
}

/// The subcommand with the given name, if there is one.
pub open spec fn subcommand_spec(name: Seq<char>) -> Option<TicketSubcommand> {
    if name == "close"@ {
        Some(TicketSubcommand::Close)
    } else if name == "create"@ {
        Some(TicketSubcommand::Create)
    } else if name == "fixed"@ {
        Some(TicketSubcommand::Fixed)
    } else if name == "open"@ {
        Some(TicketSubcommand::Open)
    } else if name == "remove"@ {
        Some(TicketSubcommand::Remove)
    } else {
        None
    }
}

/// The name under which a subcommand is registered.
pub open spec fn subcommand_name(s: TicketSubcommand) -> Seq<char> {
    match s {
        TicketSubcommand::Close => "close"@,
        TicketSubcommand::Create => "create"@,
        TicketSubcommand::Fixed => "fixed"@,
        TicketSubcommand::Open => "open"@,
        TicketSubcommand::Remove => "remove"@,
    }
}

proof fn lemma_subcommand_names_differ()
    ensures
        forall|a: TicketSubcommand, b: TicketSubcommand|
            #[trigger] subcommand_name(a) == #[trigger] subcommand_name(b) ==> a == b,
{
    reveal_strlit("close");
    reveal_strlit("create");
    reveal_strlit("fixed");
    reveal_strlit("open");
    reveal_strlit("remove");
    assert("close"@ != "create"@) by { assert("close"@[1] != "create"@[1]); }
    assert("close"@ != "fixed"@) by { assert("close"@[0] != "fixed"@[0]); }
    assert("close"@ != "open"@) by { assert("close"@[0] != "open"@[0]); }
    assert("close"@ != "remove"@) by { assert("close"@[0] != "remove"@[0]); }
    assert("create"@ != "fixed"@) by { assert("create"@[0] != "fixed"@[0]); }
    assert("create"@ != "open"@) by { assert("create"@[0] != "open"@[0]); }
    assert("create"@ != "remove"@) by { assert("create"@[0] != "remove"@[0]); }
    assert("fixed"@ != "open"@) by { assert("fixed"@[0] != "open"@[0]); }
    assert("fixed"@ != "remove"@) by { assert("fixed"@[0] != "remove"@[0]); }
    assert("open"@ != "remove"@) by { assert("open"@[0] != "remove"@[0]); }
}

/// Dispatch by name is the inverse of naming: a name selects a subcommand
/// exactly when it is that subcommand's name, so no name selects another
/// subcommand's handler and no two names select the same one.
pub proof fn lemma_subcommand_dispatch_by_name(name: Seq<char>, s: TicketSubcommand)
    ensures
        subcommand_spec(name) == Some(s) <==> name == subcommand_name(s),
{
    lemma_subcommand_names_differ();
    assert(subcommand_name(s) == subcommand_name(s));
    match s {
        TicketSubcommand::Close => {},
        TicketSubcommand::Create => {
            assert(subcommand_name(TicketSubcommand::Close) != subcommand_name(TicketSubcommand::Create));
        },
        TicketSubcommand::Fixed => {
            assert(subcommand_name(TicketSubcommand::Close) != subcommand_name(TicketSubcommand::Fixed));
            assert(subcommand_name(TicketSubcommand::Create) != subcommand_name(TicketSubcommand::Fixed));
        },
        TicketSubcommand::Open => {
            assert(subcommand_name(TicketSubcommand::Close) != subcommand_name(TicketSubcommand::Open));
            assert(subcommand_name(TicketSubcommand::Create) != subcommand_name(TicketSubcommand::Open));
            assert(subcommand_name(TicketSubcommand::Fixed) != subcommand_name(TicketSubcommand::Open));
        },
        TicketSubcommand::Remove => {
            assert(subcommand_name(TicketSubcommand::Close) != subcommand_name(TicketSubcommand::Remove));
            assert(subcommand_name(TicketSubcommand::Create) != subcommand_name(TicketSubcommand::Remove));
            assert(subcommand_name(TicketSubcommand::Fixed) != subcommand_name(TicketSubcommand::Remove));
            assert(subcommand_name(TicketSubcommand::Open) != subcommand_name(TicketSubcommand::Remove));
        },
    }
}

/// Every subcommand that `/ticket` registers dispatches to the handler of
/// the same name, and distinct registered subcommands reach distinct
/// handlers.
pub proof fn lemma_registered_subcommands_dispatch(c: CommandDef)
    requires
        is_ticket_command(c),
    ensures
        forall|k: int| 0 <= k < c.subcommands@.len() ==> ({
            &&& (#[trigger] subcommand_spec(c.subcommands@[k].name@)) is Some
            &&& subcommand_name(subcommand_spec(c.subcommands@[k].name@).unwrap()) == c.subcommands@[k].name@
        }),
        forall|k1: int, k2: int| 0 <= k1 < k2 < c.subcommands@.len() ==>
            #[trigger] subcommand_spec(c.subcommands@[k1].name@) != #[trigger] subcommand_spec(c.subcommands@[k2].name@),
{
    lemma_subcommand_names_differ();
    let subs = c.subcommands@;
    assert(subs[0].name@ == subcommand_name(TicketSubcommand::Close));
    assert(subs[1].name@ == subcommand_name(TicketSubcommand::Create));
    assert(subs[2].name@ == subcommand_name(TicketSubcommand::Fixed));
    assert(subs[3].name@ == subcommand_name(TicketSubcommand::Open));
    assert(subs[4].name@ == subcommand_name(TicketSubcommand::Remove));
    lemma_subcommand_dispatch_by_name(subs[0].name@, TicketSubcommand::Close);
    lemma_subcommand_dispatch_by_name(subs[1].name@, TicketSubcommand::Create);
    lemma_subcommand_dispatch_by_name(subs[2].name@, TicketSubcommand::Fixed);
    lemma_subcommand_dispatch_by_name(subs[3].name@, TicketSubcommand::Open);
    lemma_subcommand_dispatch_by_name(subs[4].name@, TicketSubcommand::Remove);
}

/// The reply to `/ticket close` with the given message.
pub open spec fn close_response_spec(message: Seq<char>) -> Seq<char> {
    "Ticket marked as closed\n\n"@ + message
}

/// The reply to `/ticket fixed` with the given version (possibly empty).
pub open spec fn fixed_response_spec(version: Seq<char>) -> Seq<char> {
    if version.len() == 0 {
        "Ticket marked as fixed"@
    } else {
        "Ticket marked as fixed for "@ + version
    }
}

fn argument(kind: ArgumentKind, name: &str, description: &str, required: bool) -> (a: ArgumentDef)
    ensures
        argument_is(a, kind, name@, description@, required),
{
    ArgumentDef {
        kind,
        name: String::from_str(name),
        description: String::from_str(description),
        required,
    }
}

impl TicketCommand {
    /// The definition of `/ticket`, for registering it with Discord.
    pub fn register() -> (c: CommandDef)
        ensures
            is_ticket_command(c),
    {
        let mut close_args: Vec<ArgumentDef> = Vec::new();
        close_args.push(
            argument(ArgumentKind::String, "message", "Message to send before closing the ticket", false),
        );
        let close = SubcommandDef {
            name: String::from_str("close"),
            description: String::from_str("Close the ticket"),
            arguments: close_args,
        };

        let mut create_args: Vec<ArgumentDef> = Vec::new();
        create_args.push(argument(ArgumentKind::String, "title", "The title of the ticket embed", false));
        create_args.push(
            argument(ArgumentKind::String, "description", "The description of the ticket embed", false),
        );
        create_args.push(argument(ArgumentKind::String, "label", "The label of the ticket button", false));
        let create = SubcommandDef {
            name: String::from_str("create"),
            description: String::from_str("Create a ticket embed and button"),
            arguments: create_args,
        };

        let mut fixed_args: Vec<ArgumentDef> = Vec::new();
        fixed_args.push(
            argument(ArgumentKind::String, "version", "Version of the game that fixed the issue", false),
        );
        let fixed = SubcommandDef {
            name: String::from_str("fixed"),
            description: String::from_str("Mark the ticket as fixed"),
            arguments: fixed_args,
        };

        let open = SubcommandDef {
            name: String::from_str("open"),
            description: String::from_str("Open the ticket"),
            arguments: Vec::new(),
        };

        let mut remove_args: Vec<ArgumentDef> = Vec::new();
        remove_args.push(argument(ArgumentKind::Integer, "message", "The message to remove", true));
        remove_args.push(
            argument(ArgumentKind::Channel, "channel", "The channel to remove the message from", false),
        );
        let remove = SubcommandDef {
            name: String::from_str("remove"),
            description: String::from_str("Remove a ticket message"),
            arguments: remove_args,
        };

        let mut subcommands: Vec<SubcommandDef> = Vec::new();
        subcommands.push(close);
        subcommands.push(create);
        subcommands.push(fixed);
        subcommands.push(open);
        subcommands.push(remove);
        CommandDef {
            name: String::from_str("ticket"),
            description: String::from_str("Ticket management commands"),
            default_member_permissions: MemberPermission::ManageMessages,
            subcommands,
        }
    }

    /// The subcommand named `name`; `None` for any other name.
    pub fn subcommand(name: &str) -> (r: Option<TicketSubcommand>)
        ensures
            r == subcommand_spec(name@),
    {
        if equal_text(name, "close") {
            Some(TicketSubcommand::Close)
        } else if equal_text(name, "create") {
            Some(TicketSubcommand::Create)
        } else if equal_text(name, "fixed") {
            Some(TicketSubcommand::Fixed)
        } else if equal_text(name, "open") {
            Some(TicketSubcommand::Open)
        } else if equal_text(name, "remove") {
            Some(TicketSubcommand::Remove)
        } else {
            None
        }
    }

    /// The guild a ticket command runs in; a command outside any guild fails
    /// with `MissingGuildId`.
    pub fn require_guild(guild_id: Option<u64>) -> (r: Result<u64, Error>)
        ensures
            match guild_id {
                Some(g) => r matches Ok(x) && x == g,
                None => r matches Err(Error::MissingGuildId),
            },
    {
        match guild_id {
            Some(g) => Ok(g),
            None => Err(Error::MissingGuildId),
        }
    }

    /// Whether the reply is deferred as visible only to the caller: it is
    /// when the optional text (message or version) is empty.
    pub fn defer_ephemeral(text: &str) -> (b: bool)
        ensures
            b == (text@.len() == 0),
    {
        text.is_empty()
    }

    /// The check that a ticket command runs in a thread of the support
    /// channel: it fails with `NotInSupportChannel` unless the thread's
    /// parent is the guild's support channel.
    pub fn check_support_parent(parent_id: u64, support_channel_id: Option<u64>) -> (r: Result<(), Error>)
        ensures
            r is Ok <==> support_channel_id == Some(parent_id),
            r matches Err(e) ==> e is NotInSupportChannel,
    {
        match support_channel_id {
            Some(c) => {
                if c == parent_id {
                    Ok(())
                } else {
                    Err(Error::NotInSupportChannel)
                }
            },
            None => Err(Error::NotInSupportChannel),
        }
    }

    /// The reply to `/ticket close`.
    pub fn close_response(message: &str) -> (r: String)
        ensures
            r@ == close_response_spec(message@),
    {
        let mut r = String::from_str("Ticket marked as closed\n\n");
        r.append(message);
        r
    }

    /// The reply to `/ticket fixed`.
    pub fn fixed_response(version: &str) -> (r: String)
        ensures
            r@ == fixed_response_spec(version@),
    {
        if version.is_empty() {
            String::from_str("Ticket marked as fixed")
        } else {
            let mut r = String::from_str("Ticket marked as fixed for ");
            r.append(version);
            r
        }
    }

    /// The description of the ticket embed that `/ticket create` posts: each
    /// two-character `\n` typed in the command becomes a line break.
    pub fn embed_description(description: &str) -> (r: String)
        ensures
            r@ == replaced(description@, "\\n"@, "\n"@),
    {
        proof {
            reveal_strlit("\\n");
        }
        replace_all(description, "\\n", "\n")
    }

    /// The message that `/ticket remove` deletes, as (channel, message): the
    /// given channel, or else the one the command was used in.
    pub fn removal_target(message: i64, channel: Option<u64>, current_channel: u64) -> (r: (u64, u64))
        requires
            message as u64 != 0,
        ensures
            r.1 == message as u64,
            r.0 == match channel {
                Some(c) => c,
                None => current_channel,
            },
    {
        let target = match channel {
            Some(c) => c,
            None => current_channel,
        };
        (target, message as u64)
    }

    /// The reply to `/ticket open`.
    pub fn open_response() -> (r: String)
        ensures
            r@ == "Ticket reopened"@,
    {
        String::from_str("Ticket reopened")
    }

    /// The reply to `/ticket create` once the embed is posted.
    pub fn create_response() -> (r: String)
        ensures
            r@ == "Ticket embed created"@,
    {
        String::from_str("Ticket embed created")
    }

    /// The reply to `/ticket remove` once the message is deleted.
    pub fn remove_response() -> (r: String)
        ensures
            r@ == "Message removed"@,
    {
        String::from_str("Message removed")
    }

    /// The button under the ticket embed that `/ticket create` posts, with
    /// the label given in the command.
    pub fn ticket_button(label: &str) -> (b: ButtonDef)
        ensures
            b.custom_id@ == "ticket_create"@,
            b.label@ == label@,
    {
        ButtonDef { custom_id: String::from_str("ticket_create"), label: String::from_str(label) }
    }
}

} // verus!
