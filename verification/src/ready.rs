//! On start-up, the support channel gets a fresh support-ticket button.
use vstd::prelude::*;
use vstd::string::StringExecFns;

use crate::ButtonDef;
use crate::text::equal_text;

verus! {

/// Whether a message whose first component is a button with this custom id
/// (`None` when it is not such a button) is the old support-ticket button
/// message, which start-up deletes.
pub fn is_support_ticket_button(custom_id: Option<&str>) -> (b: bool)
    ensures
        b == (custom_id matches Some(c) && c@ == "support_ticket"@),
{
    match custom_id {
        Some(c) => equal_text(c, "support_ticket"),
        None => false,
    }
}

/// The button posted in the support channel to open a ticket.
pub fn support_ticket_button() -> (b: ButtonDef)
    ensures
        b.custom_id@ == "support_ticket"@,
        b.label@ == "Create Support Ticket"@,
{
    ButtonDef {
        custom_id: String::from_str("support_ticket"),
        label: String::from_str("Create Support Ticket"),
    }
}

} // verus!
