use ticket::components::TicketComponent;
use ticket::slash_commands::support::{FaqLookup, SupportCommand};

#[test]
fn faq_embed_splits_title_and_description() {
    let e = TicketComponent::faq_embed("**How to report**\n  Send the save file.  ");
    assert_eq!(e.title, "How to report");
    assert_eq!(e.description, "Send the save file.");
}

#[test]
fn faq_embed_without_markers_is_all_description() {
    let e = TicketComponent::faq_embed("  just text ");
    assert_eq!(e.title, "");
    assert_eq!(e.description, "just text");
}

#[test]
fn faq_embed_joins_the_pieces_before_the_last_marker() {
    let e = TicketComponent::faq_embed("**A** and **B**rest");
    assert_eq!(e.title, "A and B");
    assert_eq!(e.description, "rest");
}

#[test]
fn faq_index_reads_the_first_value() {
    assert_eq!(TicketComponent::faq_index(&vec!["3".to_string(), "9".to_string()]), Some(3));
    assert_eq!(TicketComponent::faq_index(&vec!["x".to_string()]), None);
    assert_eq!(TicketComponent::faq_index(&vec![]), None);
}

#[test]
fn support_ticket_modal_layout() {
    let m = TicketComponent::support_ticket_modal();
    assert_eq!(m.custom_id, "support_ticket");
    assert_eq!(m.title, "Support Ticket");
    let ids: Vec<&str> = m.inputs.iter().map(|i| i.custom_id.as_str()).collect();
    assert_eq!(ids, vec!["version", "issue", "additional"]);
    assert!(m.inputs[0].required && m.inputs[1].required && !m.inputs[2].required);
}

#[test]
fn faq_lookup_finds_an_id_in_the_first_line() {
    match SupportCommand::faq_lookup("**Crash on start**\nRestart the game.", "Crash") {
        Some(FaqLookup::Found(e)) => {
            assert_eq!(e.title, "Crash on start");
            assert_eq!(e.description, "\nRestart the game.");
        }
        _ => panic!("expected a match"),
    }
}

#[test]
fn faq_lookup_passes_over_other_entries() {
    assert!(matches!(
        SupportCommand::faq_lookup("**Crash on start**\nRestart the game.", "Saves"),
        Some(FaqLookup::Elsewhere)
    ));
}

#[test]
fn faq_lookup_refuses_malformed_messages() {
    assert!(SupportCommand::faq_lookup("", "x").is_none());
    assert!(SupportCommand::faq_lookup("ab\nmore", "a").is_none());
    assert!(SupportCommand::faq_lookup(" **Lead**\ntext", "Lead").is_none());
}

#[test]
fn faq_title_is_cut_by_bytes() {
    match SupportCommand::faq_lookup("éX**\nbody", "X") {
        Some(FaqLookup::Found(e)) => assert_eq!(e.title, "X"),
        _ => panic!("expected a match"),
    }
    assert!(SupportCommand::faq_lookup("*é*\nbody", "é").is_none());
}

#[test]
fn faq_lookup_strips_carriage_return() {
    match SupportCommand::faq_lookup("**Win**\r\nbody", "Win") {
        Some(FaqLookup::Found(e)) => {
            assert_eq!(e.title, "Win");
            assert_eq!(e.description, "\r\nbody");
        }
        _ => panic!("expected a match"),
    }
}

#[test]
fn faq_options_number_the_entries() {
    let o = SupportCommand::faq_option("**Saves**\nWhere they are", 7).unwrap();
    assert_eq!(o.label, "Saves");
    assert_eq!(o.value, "7");
    assert!(SupportCommand::faq_option("", 0).is_none());
}

#[test]
fn faq_option_value_round_trips_to_the_index() {
    for i in [0usize, 1, 9, 10, 12345] {
        let o = SupportCommand::faq_option("**T**\nx", i).unwrap();
        assert_eq!(TicketComponent::faq_index(&vec![o.value]), Some(i));
    }
}

#[test]
fn listed_label_is_the_answered_title() {
    let content = "**Game crashes**\nUpdate your drivers.";
    let o = SupportCommand::faq_option(content, 2).unwrap();
    match SupportCommand::faq_lookup(content, "Crash") {
        Some(FaqLookup::Elsewhere) => {}
        _ => panic!("the id is case sensitive"),
    }
    match SupportCommand::faq_lookup(content, "crashes") {
        Some(FaqLookup::Found(e)) => assert_eq!(e.title, o.label),
        _ => panic!("expected a match"),
    }
}
