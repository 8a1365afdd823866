use ticket::error::{Error, ErrorMessage, THREAD_ARCHIVED, UNKNOWN_INTERACTION};
use ticket::message_command::SupportMessageCommand;
use ticket::mention::{mentions_string, Mention};
use ticket::modal::TicketModal;
use ticket::ready::{is_support_ticket_button, support_ticket_button};
use ticket::slash_commands::ticket::{ArgumentKind, TicketCommand, TicketSubcommand};
use ticket::support_guild_manager::TicketGuildRow;
use ticket::{support_close_button, support_message_parts, MessageParts};

fn row() -> TicketGuildRow {
    TicketGuildRow {
        id: 1,
        thread_id: 4,
        support_channel_id: Some(77),
        support_role_ids: vec![5, -1],
        faq_channel_id: None,
    }
}

#[test]
fn register_describes_the_ticket_command() {
    let c = TicketCommand::register();
    assert_eq!(c.name, "ticket");
    let names: Vec<&str> = c.subcommands.iter().map(|s| s.name.as_str()).collect();
    assert_eq!(names, vec!["close", "create", "fixed", "open", "remove"]);
    let remove = &c.subcommands[4];
    assert_eq!(remove.arguments[0].kind, ArgumentKind::Integer);
    assert!(remove.arguments[0].required);
    assert_eq!(remove.arguments[1].kind, ArgumentKind::Channel);
    assert!(!remove.arguments[1].required);
    assert!(c.subcommands[3].arguments.is_empty());
}

#[test]
fn replies_and_buttons_of_the_handlers() {
    assert_eq!(TicketCommand::open_response(), "Ticket reopened");
    assert_eq!(TicketCommand::create_response(), "Ticket embed created");
    assert_eq!(TicketCommand::remove_response(), "Message removed");
    let b = TicketCommand::ticket_button("Open a ticket");
    assert_eq!((b.custom_id.as_str(), b.label.as_str()), ("ticket_create", "Open a ticket"));
    assert_eq!(ticket::SupportCommand::not_found_response(), "Support message not found");
    assert_eq!(ticket::SupportCommand::faq_menu_id(), "support_faq");
}

#[test]
fn subcommands_by_name() {
    assert_eq!(TicketCommand::subcommand("close"), Some(TicketSubcommand::Close));
    assert_eq!(TicketCommand::subcommand("remove"), Some(TicketSubcommand::Remove));
    assert_eq!(TicketCommand::subcommand("Close"), None);
}

#[test]
fn commands_need_a_guild() {
    assert!(matches!(TicketCommand::require_guild(None), Err(Error::MissingGuildId)));
    assert!(matches!(TicketCommand::require_guild(Some(3)), Ok(3)));
}

#[test]
fn commands_only_work_in_support_threads() {
    assert!(TicketCommand::check_support_parent(77, Some(77)).is_ok());
    assert!(matches!(
        TicketCommand::check_support_parent(78, Some(77)),
        Err(Error::NotInSupportChannel)
    ));
    assert!(matches!(
        TicketCommand::check_support_parent(78, None),
        Err(Error::NotInSupportChannel)
    ));
}

#[test]
fn replies_of_close_and_fixed() {
    assert_eq!(TicketCommand::close_response("bye"), "Ticket marked as closed\n\nbye");
    assert_eq!(TicketCommand::close_response(""), "Ticket marked as closed\n\n");
    assert_eq!(TicketCommand::fixed_response(""), "Ticket marked as fixed");
    assert_eq!(TicketCommand::fixed_response("1.2"), "Ticket marked as fixed for 1.2");
    assert!(TicketCommand::defer_ephemeral(""));
    assert!(!TicketCommand::defer_ephemeral("x"));
}

#[test]
fn create_turns_escaped_newlines_into_line_breaks() {
    assert_eq!(TicketCommand::embed_description("a\\nb\\n"), "a\nb\n");
}

#[test]
fn remove_targets_the_given_or_current_channel() {
    assert_eq!(TicketCommand::removal_target(9, Some(3), 4), (3, 9));
    assert_eq!(TicketCommand::removal_target(9, None, 4), (4, 9));
}

#[test]
fn error_messages() {
    assert!(matches!(Error::MissingGuildId.message(), Some(ErrorMessage::MissingGuildId)));
    match Error::NotInSupportChannel.message() {
        Some(ErrorMessage::Text(t)) => assert_eq!(t, "This command only works in the support channel."),
        _ => panic!("expected a text"),
    }
    assert!(matches!(
        Error::message_for_code(Some(UNKNOWN_INTERACTION)),
        Some(ErrorMessage::UnknownInteraction)
    ));
    match Error::message_for_code(Some(THREAD_ARCHIVED)) {
        Some(ErrorMessage::Text(t)) => assert_eq!(t, "This thread has already been closed and archived."),
        _ => panic!("expected a text"),
    }
    assert!(Error::message_for_code(Some(10008)).is_none());
    assert!(Error::message_for_code(None).is_none());
    let other: Error = serenity::Error::Other("boom").into();
    assert!(other.message().is_none());
    assert!(other.discord_code().is_none());
    assert!(!other.is_unknown_message());
    assert!(!Error::MissingGuildId.is_unknown_message());
    assert!(Error::is_unknown_message_code(Some(10008)));
    assert!(!Error::is_unknown_message_code(Some(10062)));
    assert!(!Error::is_unknown_message_code(None));
}

#[test]
fn message_parts_put_mentions_first_and_button_last() {
    assert_eq!(
        support_message_parts(1),
        vec![MessageParts { mentions: true, close_button: true }]
    );
    assert_eq!(
        support_message_parts(3),
        vec![
            MessageParts { mentions: true, close_button: false },
            MessageParts { mentions: false, close_button: false },
            MessageParts { mentions: false, close_button: true },
        ]
    );
    let b = support_close_button();
    assert_eq!((b.custom_id.as_str(), b.label.as_str()), ("support_close", "Close"));
}

#[test]
fn mentions_of_a_support_thread() {
    assert!(SupportMessageCommand::needs_owner(&vec![]));
    assert_eq!(
        SupportMessageCommand::mentions(&vec![], 11, Some(22)),
        vec![Mention::User(11), Mention::User(22)]
    );
    assert_eq!(
        SupportMessageCommand::mentions(&vec![5, 6], 11, None),
        vec![Mention::Role(5), Mention::Role(6), Mention::User(11)]
    );
    let text = mentions_string(&SupportMessageCommand::mentions(&vec![5], 11, None));
    assert_eq!(text, "<@&5><@11>");
    assert_eq!(mentions_string(&vec![]), "");
    assert_eq!(Mention::Channel(42).text(), "<#42>");
}

#[test]
fn issue_embed_carries_the_message() {
    let e = SupportMessageCommand::issue_embed("it broke");
    assert_eq!((e.title.as_str(), e.description.as_str()), ("Issue", "it broke"));
    assert!(e.footer.is_none());
}

#[test]
fn modal_fields_become_embeds() {
    let fields = vec![
        ("version".to_string(), "1.2".to_string()),
        ("issue".to_string(), "Crash".to_string()),
        ("additional".to_string(), "save attached".to_string()),
        ("empty note".to_string(), "".to_string()),
        ("extra field".to_string(), "x".to_string()),
    ];
    let es = TicketModal::ticket_embeds(&fields).unwrap();
    assert_eq!(es.len(), 3);
    assert_eq!((es[0].title.as_str(), es[0].description.as_str()), ("Issue", "Crash"));
    assert_eq!(es[0].footer.as_deref(), Some("1.2"));
    assert_eq!((es[1].title.as_str(), es[1].description.as_str()), ("Additional", "save attached"));
    assert_eq!(es[2].title, "Extra Field");
    assert!(es[1].footer.is_none());
}

#[test]
fn modal_without_issue_is_refused() {
    assert!(TicketModal::ticket_embeds(&vec![("version".to_string(), "1".to_string())]).is_none());
    let es = TicketModal::ticket_embeds(&vec![("issue".to_string(), "".to_string())]).unwrap();
    assert_eq!(es.len(), 1);
    assert!(es[0].footer.is_none());
}

#[test]
fn thread_created_reply_mentions_the_thread() {
    assert_eq!(TicketModal::thread_created_text(42), "Support thread created: <#42>");
}

#[test]
fn ready_recognises_the_old_button() {
    assert!(is_support_ticket_button(Some("support_ticket")));
    assert!(!is_support_ticket_button(Some("support_close")));
    assert!(!is_support_ticket_button(None));
    let b = support_ticket_button();
    assert_eq!((b.custom_id.as_str(), b.label.as_str()), ("support_ticket", "Create Support Ticket"));
}

#[test]
fn guild_row_ids() {
    let r = row();
    assert_eq!(r.channel_id(), Some(77));
    assert_eq!(r.faq_channel_id(), None);
    assert_eq!(r.role_ids(), vec![5, u64::MAX]);
    assert!(r.is_support_channel(77));
    assert!(!r.is_support_channel(78));
}
